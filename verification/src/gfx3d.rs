//! The 3D side: vectors and matrices, planes and clipping, the stages that
//! take a mesh to the screen, and the depth-tested rasteriser.

pub mod angles;
pub mod area;
pub mod coverage;
pub mod cut;
pub mod mat4x4;
pub mod pipeline;
pub mod plane;
pub mod projected;
pub mod quad;
pub mod stages;
pub mod triangle;
pub mod vec3d;
pub mod vec4d;
