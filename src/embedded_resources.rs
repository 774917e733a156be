//! Plain data describing resources (textures, bitmap glyphs) that are
//! embedded in a compiled program.

use vstd::prelude::*;

verus! {

pub use tiny_skia::IntRect as Rect;

#[verifier::external_type_specification]
#[verifier::external_body]
pub struct ExIntRect(tiny_skia::IntRect);

/// Relies on the `Clone` of `tiny_skia::IntRect`, which it derives beside
/// `Copy`: the clone is the same rectangle.
pub assume_specification[ <tiny_skia::IntRect as core::clone::Clone>::clone ](
    r: &tiny_skia::IntRect,
) -> (c: tiny_skia::IntRect)
    ensures
        c == *r,
;

/// Relies on `tiny_skia::IntRect::from_xywh`: it yields a rectangle exactly
/// when both sizes are non-zero, fit in an `i32`, and the right and bottom
/// edges `x + width`, `y + height` do not overflow an `i32`.
#[verifier::external_body]
fn int_rect_from_xywh(x: i32, y: i32, width: u32, height: u32) -> (r: Option<Rect>)
    ensures
        r.is_some() <==> (0 < width <= i32::MAX && 0 < height <= i32::MAX && i32::MIN <= x
            + width <= i32::MAX && i32::MIN <= y + height <= i32::MAX),
{
    tiny_skia::IntRect::from_xywh(x, y, width, height)
}

/// A size in pixels.
#[derive(Debug, Clone, Copy, Default)]
pub struct Size {
    pub width: u32,
    pub height: u32,
}

/// How the pixels of a texture are stored.
#[derive(Clone, Copy, Debug)]
pub enum PixelFormat {
    /// 24 bit RGB
    Rgb,
    /// 32 bit RGBA
    Rgba,
    /// 8 bit alpha map drawn with the given color
    AlphaMap([u8; 3]),
}

/// Image data, possibly a sub-rectangle of a larger atlas.
#[derive(Debug, Clone)]
pub struct Texture {
    pub total_size: Size,
    pub rect: Rect,
    pub data: Vec<u8>,
    pub format: PixelFormat,
}

impl Texture {
    /// A one pixel transparent RGBA texture with an empty total size.
    pub fn new_empty() -> (r: Self)
        ensures
            r.total_size.width == 0,
            r.total_size.height == 0,
            r.data@ == seq![0u8, 0u8, 0u8, 0u8],
            r.format is Rgba,
    {
        let rect = int_rect_from_xywh(0, 0, 1, 1);
        Texture {
            total_size: Size { width: 0, height: 0 },
            rect: rect.unwrap(),
            data: vec![0, 0, 0, 0],
            format: PixelFormat::Rgba,
        }
    }
}

/// One pre-rendered glyph: its placement and its 8 bit alpha map.
#[derive(Debug, Clone, Default)]
pub struct BitmapGlyph {
    pub x: i16,
    pub y: i16,
    pub width: u16,
    pub height: u16,
    pub x_advance: i16,
    /// 8 bit alpha map
    pub data: Vec<u8>,
}

/// The glyphs of a font rendered at one pixel size.
#[derive(Debug, Clone)]
pub struct BitmapGlyphs {
    pub pixel_size: u16,
    pub glyph_data: Vec<BitmapGlyph>,
}

/// Maps a character to the index of its glyph.
#[derive(Debug, Clone)]
pub struct CharacterMapEntry {
    pub code_point: char,
    pub glyph_index: u16,
}

} // verus!
