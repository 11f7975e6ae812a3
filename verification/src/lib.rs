//! A CPU-side software triangle rasterizer.
//!
//! The crate turns an in-memory mesh (deduplicated vertices plus triangular
//! faces) into a 2D pixel buffer. Coverage of a pixel by a face is decided by
//! the matrix-inversion form of the barycentric inside test: the homogeneous
//! coordinate matrix of the face is inverted once, and each pixel-centre
//! sample is classified by the signs of the transformed sample vector. All
//! geometry is carried in exact integer coordinates, so the inside test is
//! exact and the determinant test for degenerate faces is exact as well.

pub mod adjacency;
pub mod color;
pub mod mesh;
pub mod raster;
pub mod store;
