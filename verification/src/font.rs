//! PSF2 bitmap fonts for the text console.
use vstd::prelude::*;
use crate::bytes::{le32, read_u32};

verus! {

/// The magic number that opens a PSF2 file.
pub const PSF2_MAGIC: u32 = 0x864a_b572;
/// The largest font file kept.
pub const MAX_FONT_BYTES: usize = 65536;

/// The geometry of a loaded font.
#[derive(Clone, Copy)]
pub struct Font {
    pub glyphs: usize,
    pub glyph_size: usize,
    pub height: usize,
    pub width: usize,
    pub bytes_per_row: usize,
    pub glyph_offset: usize,
    pub first: u8,
    pub loaded: bool,
}

impl Font {
    /// The built-in 8x16 geometry of the boot console, with no glyphs.
    pub fn empty() -> (r: Font)
        ensures r == empty_font(),
    {
        Font { glyphs: 0, glyph_size: 0, height: 16, width: 8, bytes_per_row: 1, glyph_offset: 0, first: 0, loaded: false }
    }
}

/// The font in use before a PSF2 file is loaded.
pub open spec fn empty_font() -> Font {
    Font { glyphs: 0, glyph_size: 0, height: 16, width: 8, bytes_per_row: 1, glyph_offset: 0, first: 0, loaded: false }
}

/// The font in use and the file it came from.
pub struct FontState {
    pub font: Font,
    pub bytes: Vec<u8>,
}

/// The font a PSF2 file describes, if it is a valid one: a magic number, a
/// header of at least 32 bytes, 1 to 256 glyphs of 1 to 32 pixels each way,
/// glyphs large enough for their rows, and all glyphs inside the file.
pub open spec fn psf2_spec(s: Seq<u8>) -> Option<Font> {
    if s.len() < 32 || le32(s, 0) != PSF2_MAGIC {
        None
    } else {
        let header = le32(s, 8);
        let glyphs = le32(s, 16);
        let glyph_size = le32(s, 20);
        let height = le32(s, 24);
        let width = le32(s, 28);
        let bytes_per_row = (width + 7) / 8;
        if header < 32 || glyphs == 0 || glyphs > 256 || glyph_size == 0 || width == 0 || width > 32
            || height == 0 || height > 32 || glyph_size < bytes_per_row * height
            || glyphs * glyph_size > usize::MAX || header + glyphs * glyph_size > usize::MAX
            || header + glyphs * glyph_size > s.len() {
            None
        } else {
            Some(Font {
                glyphs: glyphs as usize,
                glyph_size: glyph_size as usize,
                height: height as usize,
                width: width as usize,
                bytes_per_row: bytes_per_row as usize,
                glyph_offset: header as usize,
                first: if glyphs == 95 { 32 } else { 0 },
                loaded: true,
            })
        }
    }
}

/// Reads the header of a PSF2 file.
pub fn parse_psf2(bytes: &[u8]) -> (r: Option<Font>)
    ensures r == psf2_spec(bytes@),
{
    if bytes.len() < 32 {
        return None;
    }
    let magic = read_u32(bytes, 0).unwrap();
    if magic != PSF2_MAGIC {
        return None;
    }
    let header_size = read_u32(bytes, 8).unwrap() as usize;
    let glyphs = read_u32(bytes, 16).unwrap() as usize;
    let glyph_size = read_u32(bytes, 20).unwrap() as usize;
    let height = read_u32(bytes, 24).unwrap() as usize;
    let width = read_u32(bytes, 28).unwrap() as usize;
    if header_size < 32 || glyphs == 0 || glyphs > 256 || glyph_size == 0 || width == 0 || width > 32
        || height == 0 || height > 32 {
        return None;
    }
    let bytes_per_row = (width + 7) / 8;
    assert(bytes_per_row * height <= 4 * 32) by (nonlinear_arith)
        requires bytes_per_row <= 4, height <= 32;
    if glyph_size < bytes_per_row * height {
        return None;
    }
    let glyph_bytes = match glyphs.checked_mul(glyph_size) { Some(n) => n, None => return None };
    let end = match header_size.checked_add(glyph_bytes) { Some(n) => n, None => return None };
    if end > bytes.len() {
        return None;
    }
    Some(Font {
        glyphs,
        glyph_size,
        height,
        width,
        bytes_per_row,
        glyph_offset: header_size,
        first: if glyphs == 95 { 32 } else { 0 },
        loaded: true,
    })
}

/// `v` limited to `usize::MAX`.
pub open spec fn sat(v: int) -> int {
    if v > usize::MAX { usize::MAX as int } else { v }
}

/// The glyph that shows `byte`: printable ASCII in a 95-glyph font, the
/// byte itself when the font has that many glyphs, a space for a tab.
pub open spec fn glyph_index_spec(font: Font, byte: u8) -> Option<usize> {
    if font.glyphs == 95 && byte >= font.first && byte < sat_u8(font.first as int + 95) {
        Some((byte - font.first) as usize)
    } else if (byte as int) < font.glyphs {
        Some(byte as usize)
    } else if byte == 9 && 32 < font.glyphs {
        Some(32)
    } else {
        None
    }
}

/// `v` limited to `u8::MAX`.
pub open spec fn sat_u8(v: int) -> int {
    if v > 255 { 255 } else { v }
}

/// The glyph that shows `byte`.
pub fn glyph_index(font: &Font, byte: u8) -> (r: Option<usize>)
    ensures r == glyph_index_spec(*font, byte),
{
    if font.glyphs == 95 && byte >= font.first && byte < font.first.saturating_add(95) {
        Some((byte - font.first) as usize)
    } else if (byte as usize) < font.glyphs {
        Some(byte as usize)
    } else if byte == 9 && 32 < font.glyphs {
        Some(32)
    } else {
        None
    }
}

/// Where the byte holding pixel (`row`, `col`) of glyph `index` lies.
pub open spec fn glyph_byte_offset(font: Font, index: int, row: int, col: int) -> int {
    sat(sat(sat(font.glyph_offset + sat(index * font.glyph_size)) + sat(row * font.bytes_per_row)) + col / 8)
}

/// `a * b`, limited to `usize::MAX`.
pub fn saturating_mul(a: usize, b: usize) -> (r: usize)
    ensures r == sat(a * b),
{
    match a.checked_mul(b) { Some(v) => v, None => usize::MAX }
}

/// Whether a font with glyphs is loaded.
pub open spec fn loaded_spec(state: FontState) -> bool {
    state.font.loaded && state.bytes@.len() != 0
}

/// Whether pixel (`row`, `col`) of the glyph for `byte` is set.
pub open spec fn glyph_bit_spec(state: FontState, byte: u8, row: int, col: int) -> bool {
    if !loaded_spec(state) || row >= state.font.height || col >= state.font.width {
        false
    } else {
        match glyph_index_spec(state.font, byte) {
            None => false,
            Some(index) => {
                let offset = glyph_byte_offset(state.font, index as int, row, col);
                offset < state.bytes@.len() && state.bytes@[offset] & (0x80u8 >> (col % 8) as u8) != 0
            },
        }
    }
}

impl FontState {
    /// No font file loaded.
    pub fn new() -> (r: FontState)
        ensures r.font == empty_font(), r.bytes@.len() == 0,
    {
        FontState { font: Font::empty(), bytes: Vec::new() }
    }
}

/// Loads a PSF2 font file of at most `MAX_FONT_BYTES` bytes; on failure the
/// font in use stays.
pub fn load_psf(state: &mut FontState, bytes: &[u8]) -> (r: bool)
    ensures
        r == (psf2_spec(bytes@) is Some && bytes@.len() <= MAX_FONT_BYTES),
        r ==> final(state).font == psf2_spec(bytes@).unwrap() && final(state).bytes@ == bytes@,
        !r ==> final(state).font == old(state).font && final(state).bytes@ == old(state).bytes@,
{
    let font = match parse_psf2(bytes) { Some(f) => f, None => return false };
    if bytes.len() > MAX_FONT_BYTES {
        return false;
    }
    let mut copy: Vec<u8> = Vec::new();
    let mut i: usize = 0;
    while i < bytes.len()
        invariant i <= bytes@.len(), copy@ == bytes@.subrange(0, i as int),
        decreases bytes@.len() - i,
    {
        copy.push(bytes[i]);
        i += 1;
    }
    proof { assert(copy@ =~= bytes@); }
    state.bytes = copy;
    state.font = font;
    true
}

/// Whether a font with glyphs is loaded.
pub fn is_loaded(state: &FontState) -> (r: bool)
    ensures r == loaded_spec(*state),
{
    state.font.loaded && state.bytes.len() != 0
}

/// Glyph width in pixels.
pub fn width(state: &FontState) -> (r: usize)
    ensures r == state.font.width,
{
    state.font.width
}

/// Glyph height in pixels.
pub fn height(state: &FontState) -> (r: usize)
    ensures r == state.font.height,
{
    state.font.height
}

/// Horizontal distance between characters: the glyph width and a pixel.
pub fn advance(state: &FontState) -> (r: usize)
    ensures r == sat(state.font.width + 1),
{
    state.font.width.saturating_add(1)
}

/// Vertical distance between lines: the glyph height and two pixels.
pub fn line_height(state: &FontState) -> (r: usize)
    ensures r == sat(state.font.height + 2),
{
    state.font.height.saturating_add(2)
}

/// Whether pixel (`row`, `col`) of the glyph for `byte` is set.
pub fn glyph_bit(state: &FontState, byte: u8, row: usize, col: usize) -> (r: bool)
    ensures r == glyph_bit_spec(*state, byte, row as int, col as int),
{
    if !is_loaded(state) || row >= state.font.height || col >= state.font.width {
        return false;
    }
    let index = match glyph_index(&state.font, byte) { Some(i) => i, None => return false };
    let offset = state.font.glyph_offset
        .saturating_add(saturating_mul(index, state.font.glyph_size))
        .saturating_add(saturating_mul(row, state.font.bytes_per_row))
        .saturating_add(col / 8);
    if offset >= state.bytes.len() {
        return false;
    }
    let b = state.bytes[offset];
    let mask: u8 = 0x80u8 >> ((col % 8) as u8);
    b & mask != 0
}

} // verus!
