//! Which of the built-in shapes is on display, and how requests change it.

use vstd::prelude::*;
use crate::mesh::{
    create_cube, create_octahedron, create_pyramid, cube, octahedron, pyramid, Mesh, MeshData,
};

verus! {

/// Number of built-in shapes.
pub const MESH_COUNT: usize = 3;

/// One of the built-in shapes.
#[derive(Clone, Copy, Debug, PartialEq, Eq, Structural)]
pub enum MeshKind {
    Cube,
    Pyramid,
    Octahedron,
}

impl MeshKind {
    /// Position of the shape in the fixed list cube, pyramid, octahedron.
    pub open spec fn ordinal(self) -> int {
        match self {
            MeshKind::Cube => 0,
            MeshKind::Pyramid => 1,
            MeshKind::Octahedron => 2,
        }
    }

    /// The shape at position `i` of the list, if there is one.
    pub open spec fn at(i: int) -> Option<MeshKind> {
        if i == 0 {
            Some(MeshKind::Cube)
        } else if i == 1 {
            Some(MeshKind::Pyramid)
        } else if i == 2 {
            Some(MeshKind::Octahedron)
        } else {
            None
        }
    }

    /// Vertices and edges of the shape.
    pub open spec fn data(self) -> MeshData {
        match self {
            MeshKind::Cube => cube(),
            MeshKind::Pyramid => pyramid(),
            MeshKind::Octahedron => octahedron(),
        }
    }

    /// The selection after a request for the shape at position `request`:
    /// that shape if there is one, else the selection as it was.
    pub open spec fn after(self, request: Option<usize>) -> MeshKind {
        match request {
            Some(i) => match MeshKind::at(i as int) {
                Some(kind) => kind,
                None => self,
            },
            None => self,
        }
    }

    pub fn index(self) -> (i: usize)
        ensures
            i == self.ordinal(),
            i < MESH_COUNT,
    {
        match self {
            MeshKind::Cube => 0,
            MeshKind::Pyramid => 1,
            MeshKind::Octahedron => 2,
        }
    }

    pub fn from_index(i: usize) -> (kind: Option<MeshKind>)
        ensures
            kind == MeshKind::at(i as int),
            kind.is_some() <==> i < MESH_COUNT,
    {
        if i == 0 {
            Some(MeshKind::Cube)
        } else if i == 1 {
            Some(MeshKind::Pyramid)
        } else if i == 2 {
            Some(MeshKind::Octahedron)
        } else {
            None
        }
    }

    /// Builds the mesh of this shape.
    pub fn build(self) -> (mesh: Mesh)
        ensures
            mesh@ == self.data(),
    {
        match self {
            MeshKind::Cube => create_cube(),
            MeshKind::Pyramid => create_pyramid(),
            MeshKind::Octahedron => create_octahedron(),
        }
    }

    /// Applies one frame's selection request. A request for a position that
    /// holds no shape, like no request at all, leaves the selection as it is.
    pub fn select(self, request: Option<usize>) -> (next: MeshKind)
        ensures
            next == self.after(request),
    {
        match request {
            Some(i) => match MeshKind::from_index(i) {
                Some(kind) => kind,
                None => self,
            },
            None => self,
        }
    }
}

/// The position requested by the three selection keys: one key asks for the
/// shape it stands for, and of several held at once the last in the list
/// wins.
pub open spec fn key_request(first: bool, second: bool, third: bool) -> Option<usize> {
    if third {
        Some(2usize)
    } else if second {
        Some(1usize)
    } else if first {
        Some(0usize)
    } else {
        None
    }
}

/// Turns the state of the three selection keys into a request.
pub fn requested_index(first: bool, second: bool, third: bool) -> (request: Option<usize>)
    ensures
        request == key_request(first, second, third),
{
    if third {
        Some(2)
    } else if second {
        Some(1)
    } else if first {
        Some(0)
    } else {
        None
    }
}

/// Every shape sits at its own position of the list, and every position
/// below the number of shapes holds the shape with that ordinal.
pub proof fn lemma_positions(kind: MeshKind, i: int)
    ensures
        MeshKind::at(kind.ordinal()) == Some(kind),
        0 <= kind.ordinal() < MESH_COUNT,
        0 <= i < MESH_COUNT ==> MeshKind::at(i).is_some() && MeshKind::at(i).unwrap().ordinal()
            == i,
        !(0 <= i < MESH_COUNT) ==> MeshKind::at(i).is_none(),
{
}

/// A request for a position that holds a shape selects that shape whatever
/// was selected before; any other request changes nothing.
pub proof fn lemma_selection(current: MeshKind, request: Option<usize>)
    ensures
        request.is_some() && request.unwrap() < MESH_COUNT ==> current.after(request).ordinal()
            == request.unwrap(),
        request.is_none() || request.unwrap() >= MESH_COUNT ==> current.after(request) == current,
{
}

} // verus!
