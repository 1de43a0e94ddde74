//! Integer core of a wireframe renderer: meshes, line rasterization and
//! per-frame drawing into a packed-RGB pixel buffer.

pub mod frame;
pub mod line;
pub mod mesh;
pub mod raster;
pub mod selection;
