//! Weighted color-space quantizer: builds a reduced palette from pixel
//! histograms by multi-restart k-means clustering over observed colors,
//! together with the palette, dither-pattern and plane containers that the
//! surrounding tools share.

pub mod assign;
pub mod bayer;
pub mod bluenoise;
pub mod colorcalc;
pub mod colors;
pub mod dmatrix;
pub mod histogram;
pub mod indexing;
pub mod interface;
pub mod math;
pub mod palette;
pub mod pattern;
pub mod plane;
pub mod points;
pub mod rng;
pub mod score;
pub mod seed;
pub mod update;
