//! A minimal software rasterizer: bounding-box triangle fill via integer
//! barycentric coordinates, a Bresenham-style line rasterizer, and a
//! flat-shaded mesh-to-raster pipeline over an RGB8 frame buffer.

pub mod bbox;
pub mod fill;
pub mod framebuffer;
pub mod geom;
pub mod line;
pub mod render;

pub use bbox::{BoundingBox, BoxIterator};
pub use fill::draw_triangle;
pub use framebuffer::{FrameBuffer, Rgb};
pub use geom::{Line, Triangle, Vec2i};
pub use line::draw_line;
pub use render::{Mesh, ModelVertex};
