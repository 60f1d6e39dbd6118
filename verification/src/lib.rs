//! Render a raster image as text for a terminal.
//!
//! A decoded image becomes a [`raster::Raster`]. The raster is reduced to an
//! [`cache::ImageCache`] by cutting it into rectangular blocks, as the
//! [`scale::Scale`] says, and taking the mean colour of each block. The cache
//! is laid out as lines of text by [`printimage::render_img`], one glyph for
//! each cell.

pub mod average;
pub mod cache;
pub mod printimage;
pub mod raster;
pub mod rgb;
pub mod scale;
