//! Glyphs of the console and GUI font (Noto Sans Mono, regular weight,
//! 20-pixel raster).
use vstd::prelude::*;
use noto_sans_mono_bitmap::{get_raster, FontWeight, RasterHeight};

verus! {

/// Width of a glyph of the 20-pixel raster.
pub const GLYPH_WIDTH: usize = 9;
/// Height of a glyph of the 20-pixel raster.
pub const GLYPH_HEIGHT: usize = 20;

/// The intensities (0 to 255, row by row) of the glyph the font has for
/// `c`, or `None` when the font has no glyph for it.
pub uninterp spec fn font_glyph(c: char) -> Option<Seq<u8>>;

/// The glyph of `c` from `noto_sans_mono_bitmap::get_raster` (regular
/// weight, 20-pixel raster): its pixel intensities, row by row. The
/// crate's documentation and source give every glyph of this raster the
/// same 9×20 box, stored as exactly width × height bytes. With the
/// crate's default Unicode range (Basic Latin), the characters that have a
/// glyph are U+0020 to U+007E; the glyphs themselves are the crate's data.
#[verifier::external_body]
pub(crate) fn glyph(c: char) -> (g: Option<Vec<u8>>)
    ensures
        g is Some <==> 0x20 <= (c as u32) <= 0x7e,
        g is None ==> font_glyph(c) is None,
        g matches Some(p) ==> font_glyph(c) == Some(p@) && p@.len() == GLYPH_WIDTH * GLYPH_HEIGHT,
{
    match get_raster(c, FontWeight::Regular, RasterHeight::Size20) {
        Some(r) => Some(r.pixels().to_vec()),
        None => None,
    }
}

} // verus!
