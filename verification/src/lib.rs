//! Side-by-side screenshot comparison: the pixel rules, the image model and
//! its layout, the DIFF panel and the comparison of two screenshots, the
//! encoders and page used by the browser viewer, and the command-line grammar.

pub mod cli;
pub mod diff;
pub mod encode;
pub mod html;
pub mod pixel;
pub mod raster;
mod text;
