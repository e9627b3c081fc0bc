//! Compact antialiased bitmap fonts for small displays: the packed glyph
//! format, its packer and unpacker, colour mixing, and the layout of text
//! drawn with such a font.
pub mod blend;
pub mod font;
pub mod geometry;
pub mod pack;
pub mod rle;
pub mod structs;
pub mod text;
