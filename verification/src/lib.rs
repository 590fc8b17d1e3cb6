//! Half-block rendering of RGBA pixel grids for terminals with 24-bit colour.
//!
//! Every character cell of the output stands for two vertically stacked
//! pixels: the glyph's foreground paints one half of the cell, its background
//! the other. Pixels whose alpha lies below a threshold are left unpainted.
//!
//! `render` turns a `PixelGrid` into text; `of_image` and
//! `of_image_with_filter` first resize an image of the `image` crate and
//! read its pixels into such a grid. The module `laws` states what holds of
//! every rendering.
//!
//! A grid never has rows without columns. Whatever has no area is rendered
//! as the empty text: `PixelGrid::from_rows` refuses rows without pixels,
//! as it refuses rows of unequal length, so no such grid exists; an image
//! without columns or without rows has no pixel to read, and
//! `grid_of_image` gives the grid without pixels for it, as does a resize
//! to a target without area.

pub mod pixel;
pub mod text;
pub mod grid;
pub mod render;
pub mod laws;
pub mod source;

pub use crate::grid::PixelGrid;
pub use crate::pixel::{EscapeStyle, Pixel};
pub use crate::render::render;
pub use crate::source::{
    can_resize, grid_of_image, of_image, of_image_with_filter, render_image,
    try_of_image_with_filter,
};
