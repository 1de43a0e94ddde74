//! The fixed set of wireframe shapes.
//!
//! A mesh is a list of vertices in object space and a list of edges, each a
//! pair of indices into the vertex list. Every coordinate of the built-in
//! shapes is a whole number, so vertices are kept as integers.

use vstd::prelude::*;

verus! {

/// A point in object space, in whole units.
#[derive(Clone, Copy, Debug, PartialEq, Eq, Structural)]
pub struct Vertex {
    pub x: i32,
    pub y: i32,
    pub z: i32,
}

impl Vertex {
    pub fn new(x: i32, y: i32, z: i32) -> (v: Vertex)
        ensures
            v == (Vertex { x, y, z }),
    {
        Vertex { x, y, z }
    }

    /// Square of the Euclidean distance between two points.
    pub open spec fn distance_squared(self, other: Vertex) -> int {
        (self.x - other.x) * (self.x - other.x) + (self.y - other.y) * (self.y - other.y) + (self.z
            - other.z) * (self.z - other.z)
    }
}

/// The point with the given coordinates.
pub open spec fn point(x: int, y: int, z: int) -> Vertex {
    Vertex { x: x as i32, y: y as i32, z: z as i32 }
}

/// What a mesh holds: its vertices, and its edges as pairs of vertex indices.
pub struct MeshData {
    pub vertices: Seq<Vertex>,
    pub edges: Seq<(usize, usize)>,
}

impl MeshData {
    /// Both ends of every edge are indices of vertices.
    pub open spec fn well_formed(self) -> bool {
        forall|i: int|
            0 <= i < self.edges.len() ==> (#[trigger] self.edges[i]).0 < self.vertices.len()
                && self.edges[i].1 < self.vertices.len()
    }

    /// Square of the length of edge `i`.
    pub open spec fn edge_length_squared(self, i: int) -> int {
        self.vertices[self.edges[i].0 as int].distance_squared(
            self.vertices[self.edges[i].1 as int],
        )
    }
}

/// A wireframe shape. Once built it cannot be changed, and both ends of each
/// of its edges are always valid vertex indices.
#[derive(Debug)]
pub struct Mesh {
    vertices: Vec<Vertex>,
    edges: Vec<(usize, usize)>,
}

impl View for Mesh {
    type V = MeshData;

    closed spec fn view(&self) -> MeshData {
        MeshData { vertices: self.vertices@, edges: self.edges@ }
    }
}

impl Mesh {
    #[verifier::type_invariant]
    closed spec fn edges_in_bounds(&self) -> bool {
        self@.well_formed()
    }

    pub fn vertex_count(&self) -> (n: usize)
        ensures
            n == self@.vertices.len(),
    {
        self.vertices.len()
    }

    pub fn edge_count(&self) -> (n: usize)
        ensures
            n == self@.edges.len(),
    {
        self.edges.len()
    }

    /// The vertices, in order.
    pub fn vertices(&self) -> (list: &[Vertex])
        ensures
            list@ == self@.vertices,
    {
        self.vertices.as_slice()
    }

    /// The edges, in order.
    pub fn edges(&self) -> (list: &[(usize, usize)])
        ensures
            list@ == self@.edges,
            self@.well_formed(),
    {
        proof {
            use_type_invariant(self);
        }
        self.edges.as_slice()
    }

    /// Vertex number `i`.
    pub fn vertex(&self, i: usize) -> (v: Vertex)
        requires
            i < self@.vertices.len(),
        ensures
            v == self@.vertices[i as int],
    {
        self.vertices[i]
    }

    /// Edge number `i`, both of whose ends are valid vertex indices.
    pub fn edge(&self, i: usize) -> (e: (usize, usize))
        requires
            i < self@.edges.len(),
        ensures
            e == self@.edges[i as int],
            e.0 < self@.vertices.len(),
            e.1 < self@.vertices.len(),
    {
        proof {
            use_type_invariant(self);
        }
        self.edges[i]
    }
}

/// The cube with corners at plus and minus one on each axis.
pub open spec fn cube() -> MeshData {
    MeshData {
        vertices: seq![
            point(-1, -1, -1),
            point(1, -1, -1),
            point(1, 1, -1),
            point(-1, 1, -1),
            point(-1, -1, 1),
            point(1, -1, 1),
            point(1, 1, 1),
            point(-1, 1, 1),
        ],
        edges: seq![
            (0usize, 1usize),
            (1usize, 2usize),
            (2usize, 3usize),
            (3usize, 0usize),
            (4usize, 5usize),
            (5usize, 6usize),
            (6usize, 7usize),
            (7usize, 4usize),
            (0usize, 4usize),
            (1usize, 5usize),
            (2usize, 6usize),
            (3usize, 7usize),
        ],
    }
}

/// The pyramid with its apex at height one above a square base at height
/// minus one.
pub open spec fn pyramid() -> MeshData {
    MeshData {
        vertices: seq![
            point(0, 1, 0),
            point(-1, -1, -1),
            point(1, -1, -1),
            point(1, -1, 1),
            point(-1, -1, 1),
        ],
        edges: seq![
            (1usize, 2usize),
            (2usize, 3usize),
            (3usize, 4usize),
            (4usize, 1usize),
            (0usize, 1usize),
            (0usize, 2usize),
            (0usize, 3usize),
            (0usize, 4usize),
        ],
    }
}

/// The octahedron with a vertex at plus and minus one on each axis.
pub open spec fn octahedron() -> MeshData {
    MeshData {
        vertices: seq![
            point(0, 1, 0),
            point(0, -1, 0),
            point(-1, 0, 0),
            point(1, 0, 0),
            point(0, 0, -1),
            point(0, 0, 1),
        ],
        edges: seq![
            (0usize, 2usize),
            (0usize, 3usize),
            (0usize, 4usize),
            (0usize, 5usize),
            (1usize, 2usize),
            (1usize, 3usize),
            (1usize, 4usize),
            (1usize, 5usize),
            (2usize, 4usize),
            (4usize, 3usize),
            (3usize, 5usize),
            (5usize, 2usize),
        ],
    }
}

/// Every edge of the cube joins two corners at distance two.
pub proof fn lemma_cube_edge_lengths(i: int)
    requires
        0 <= i < cube().edges.len(),
    ensures
        cube().edge_length_squared(i) == 4,
{
    let c = cube();
    let p = c.vertices[c.edges[i].0 as int];
    let q = c.vertices[c.edges[i].1 as int];
    let dx = p.x - q.x;
    let dy = p.y - q.y;
    let dz = p.z - q.z;
    // The two ends of an edge differ by two along exactly one axis.
    assert({
        ||| (dx == 2 || dx == -2) && dy == 0 && dz == 0
        ||| dx == 0 && (dy == 2 || dy == -2) && dz == 0
        ||| dx == 0 && dy == 0 && (dz == 2 || dz == -2)
    });
    assert(dx * dx + dy * dy + dz * dz == 4) by (nonlinear_arith)
        requires
            ({
                ||| (dx == 2 || dx == -2) && dy == 0 && dz == 0
                ||| dx == 0 && (dy == 2 || dy == -2) && dz == 0
                ||| dx == 0 && dy == 0 && (dz == 2 || dz == -2)
            }),
    ;
}

/// The cube, pyramid and octahedron have 8, 5 and 6 vertices and 12, 8 and 12
/// edges, and each edge joins two of the shape's own vertices.
pub proof fn lemma_shapes_well_formed()
    ensures
        cube().well_formed(),
        cube().vertices.len() == 8,
        cube().edges.len() == 12,
        pyramid().well_formed(),
        pyramid().vertices.len() == 5,
        pyramid().edges.len() == 8,
        octahedron().well_formed(),
        octahedron().vertices.len() == 6,
        octahedron().edges.len() == 12,
{
}

/// Builds the cube.
pub fn create_cube() -> (mesh: Mesh)
    ensures
        mesh@ == cube(),
        forall|i: int| 0 <= i < mesh@.edges.len() ==> #[trigger] mesh@.edge_length_squared(i) == 4,
{
    let vertices = vec![
        Vertex::new(-1, -1, -1),
        Vertex::new(1, -1, -1),
        Vertex::new(1, 1, -1),
        Vertex::new(-1, 1, -1),
        Vertex::new(-1, -1, 1),
        Vertex::new(1, -1, 1),
        Vertex::new(1, 1, 1),
        Vertex::new(-1, 1, 1),
    ];
    let edges = vec![
        (0usize, 1usize),
        (1usize, 2usize),
        (2usize, 3usize),
        (3usize, 0usize),
        (4usize, 5usize),
        (5usize, 6usize),
        (6usize, 7usize),
        (7usize, 4usize),
        (0usize, 4usize),
        (1usize, 5usize),
        (2usize, 6usize),
        (3usize, 7usize),
    ];
    proof {
        lemma_shapes_well_formed();
        assert(vertices@ =~= cube().vertices);
        assert(edges@ =~= cube().edges);
        assert forall|i: int| 0 <= i < cube().edges.len() implies #[trigger] cube().edge_length_squared(i)
            == 4 by {
            lemma_cube_edge_lengths(i);
        }
    }
    Mesh { vertices, edges }
}

/// Builds the pyramid.
pub fn create_pyramid() -> (mesh: Mesh)
    ensures
        mesh@ == pyramid(),
{
    let vertices = vec![
        Vertex::new(0, 1, 0),
        Vertex::new(-1, -1, -1),
        Vertex::new(1, -1, -1),
        Vertex::new(1, -1, 1),
        Vertex::new(-1, -1, 1),
    ];
    let edges = vec![
        (1usize, 2usize),
        (2usize, 3usize),
        (3usize, 4usize),
        (4usize, 1usize),
        (0usize, 1usize),
        (0usize, 2usize),
        (0usize, 3usize),
        (0usize, 4usize),
    ];
    proof {
        lemma_shapes_well_formed();
        assert(vertices@ =~= pyramid().vertices);
        assert(edges@ =~= pyramid().edges);
    }
    Mesh { vertices, edges }
}

/// Builds the octahedron.
pub fn create_octahedron() -> (mesh: Mesh)
    ensures
        mesh@ == octahedron(),
{
    let vertices = vec![
        Vertex::new(0, 1, 0),
        Vertex::new(0, -1, 0),
        Vertex::new(-1, 0, 0),
        Vertex::new(1, 0, 0),
        Vertex::new(0, 0, -1),
        Vertex::new(0, 0, 1),
    ];
    let edges = vec![
        (0usize, 2usize),
        (0usize, 3usize),
        (0usize, 4usize),
        (0usize, 5usize),
        (1usize, 2usize),
        (1usize, 3usize),
        (1usize, 4usize),
        (1usize, 5usize),
        (2usize, 4usize),
        (4usize, 3usize),
        (3usize, 5usize),
        (5usize, 2usize),
    ];
    proof {
        lemma_shapes_well_formed();
        assert(vertices@ =~= octahedron().vertices);
        assert(edges@ =~= octahedron().edges);
    }
    Mesh { vertices, edges }
}

} // verus!
