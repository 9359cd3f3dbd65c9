//! A software rasterization pipeline over exact integer arithmetic.
//!
//! Geometry is carried in signed fixed-point coordinates, triangles are
//! filled by a bounding-box scan with an edge-function inside test, and
//! fragments are shaded by a directional light before being written into a
//! bounds-checked framebuffer.

pub mod color;
pub mod fixed;
pub mod framebuffer;
pub mod shader;
pub mod triangle;
pub mod uniforms;
pub mod vertex;
