//! Screen-space triangles in whole pixels and their scanline rasterization:
//! sorting a triangle's vertices by row, splitting it into a flat-bottomed
//! and a flat-topped half, the spans of its rows on a surface, filling an
//! RGB pixel buffer, and the geometry of its wireframe.

pub mod color;
pub mod point;
pub mod raster;
pub mod triangle;
