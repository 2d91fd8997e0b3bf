//! Bitmap font matching and glyph shaping for small devices.
//!
//! Fonts are tables of glyphs that were rasterized ahead of time at a few
//! pixel sizes. A [`FontRegistry`] keeps the fonts in the order in which they
//! were registered, [`match_font`] resolves a request to one font at one
//! pixel size, and the resulting [`PixelFont`] measures and shapes text.

pub mod font;
pub mod pixel_font;
pub mod registry;
pub mod text;

pub use font::{BitmapFont, BitmapGlyph, BitmapGlyphs, CharacterMapEntry};
pub use pixel_font::{text_size, Glyph, PixelFont, ShapedGlyph};
pub use registry::{
    match_font, register_bitmap_font, FontRegistry, FontRequest, DEFAULT_FONT_SIZE,
};
