//! A software 3D rasterization core in 16.16 fixed-point arithmetic:
//! slope/DDA interpolators, an edge-walking triangle rasterizer, a
//! generalized convex-polygon rasterizer, perspective-correct attribute
//! interpolation, Sutherland-Hodgman polygon clipping with frustum
//! construction, and a perspective projection/unprojection pair.

pub mod fixed;
pub mod slope;
pub mod rasterize;
pub mod polygon;
pub mod texpoly;
pub mod texpoly_vec;
pub mod math;
pub mod clip;
pub mod test_texture;
pub mod palette;
pub mod level;
pub mod doom;

pub use fixed::FP_SHIFT;
pub use fixed::FP_ONE;
