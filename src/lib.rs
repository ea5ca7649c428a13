pub mod color;
pub mod framebuffer;
pub mod geometry;
pub mod line;
pub mod mesh;
pub mod pixels;
pub mod ppm;
pub mod raster;
pub mod shading;
pub mod texture;
