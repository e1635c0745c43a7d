//! Primitive image-canvas operations for an RGBA8 bitmap library:
//! allocating a solid-color canvas and compositing one bitmap onto
//! another at a pixel offset.
//!
//! Images are flat byte buffers (`pixel_buffer::PhotonImage`): four bytes
//! per pixel in red, green, blue, alpha order, rows stored consecutively
//! from the top-left pixel. The operations themselves live in `graphics`.

pub mod graphics;
pub mod pixel_buffer;
