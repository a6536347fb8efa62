//! A codec for square pixel glyphs: a scanner that finds the glyphs of a
//! two-colour pixel grid and decodes each into a typed token, and the inverse
//! that draws the glyph of a non-negative number. Around the codec stand the
//! reading of a grid from a picture and the drawing of what was found.

pub mod grid;
pub mod glyph;
pub mod decode;
pub mod encode;
pub mod scan;
pub mod scan_laws;
pub mod collect;
pub mod symbols;
pub mod text;
pub mod decimal;
pub mod svg;
pub mod picture;
pub mod sheet;
pub mod raster;
