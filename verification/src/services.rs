//! The screen service: drawing for user programs, and the text console that
//! keeps the last bytes written to it and shows them on a character grid
//! with a few ANSI cursor controls.
use vstd::prelude::*;
use crate::font::{FontState, glyph_bit, glyph_bit_spec, load_psf, psf2_spec, MAX_FONT_BYTES};
use crate::framebuffer::{Color, Framebuffer};

verus! {

/// Bytes of console history kept.
pub const CONSOLE_LEN: usize = 2048;
/// Most terminal columns.
pub const TERM_MAX_COLS: usize = 160;
/// Most terminal rows.
pub const TERM_MAX_ROWS: usize = 64;
/// Cells of the terminal grid.
pub const TERM_CELLS: usize = 10240;
/// Terminal background colour.
pub const TERM_BG: u32 = 0x0000_0000;
/// Terminal text colour.
pub const TERM_FG: u32 = 0x00d8_d8d8;

/// The terminal's text: a grid of bytes (row-major, `TERM_MAX_COLS` per
/// row), how much of each row is written, the cursor and the state of an
/// escape sequence being read.
pub struct Terminal {
    pub grid: Vec<u8>,
    pub lens: Vec<usize>,
    pub col: usize,
    pub row: usize,
    pub ansi_state: u8,
    pub csi_value: usize,
    pub csi_has_value: bool,
}

/// The terminal as values.
pub struct TermView {
    pub grid: Seq<u8>,
    pub lens: Seq<usize>,
    pub col: usize,
    pub row: usize,
    pub ansi_state: u8,
    pub csi_value: usize,
    pub csi_has_value: bool,
}

impl Terminal {
    pub open spec fn view(&self) -> TermView {
        TermView {
            grid: self.grid@, lens: self.lens@, col: self.col, row: self.row,
            ansi_state: self.ansi_state, csi_value: self.csi_value, csi_has_value: self.csi_has_value,
        }
    }
}

/// A blank terminal with the cursor at the top left.
pub open spec fn blank_term() -> TermView {
    TermView {
        grid: Seq::new(TERM_CELLS as nat, |i: int| 0u8),
        lens: Seq::new(TERM_MAX_ROWS as nat, |i: int| 0usize),
        col: 0, row: 0, ansi_state: 0, csi_value: 0, csi_has_value: false,
    }
}

/// Whether `t` fits a grid of `cols` by `rows`.
pub open spec fn term_ok(t: TermView, cols: int, rows: int) -> bool {
    &&& t.grid.len() == TERM_CELLS
    &&& t.lens.len() == TERM_MAX_ROWS
    &&& 1 <= cols <= TERM_MAX_COLS
    &&& 1 <= rows <= TERM_MAX_ROWS
    &&& t.row < rows
    &&& t.col <= cols
}

pub open spec fn min(a: int, b: int) -> int { if a < b { a } else { b } }
pub open spec fn max(a: int, b: int) -> int { if a > b { a } else { b } }
pub open spec fn sat(v: int) -> int { if v > usize::MAX { usize::MAX as int } else { v } }
pub open spec fn sat_sub(a: int, b: int) -> int { if a < b { 0 } else { a - b } }

/// Rows 1.. of the `rows` in use move up one; the last of them is blanked.
pub open spec fn scrolled(t: TermView, cols: int, rows: int) -> TermView {
    TermView {
        grid: Seq::new(TERM_CELLS as nat, |i: int|
            if i < (rows - 1) * 160 { t.grid[i + 160] } else if i < rows * 160 { 0u8 } else { t.grid[i] }),
        lens: Seq::new(TERM_MAX_ROWS as nat, |r: int|
            if r < rows - 1 { min(t.lens[r + 1] as int, cols) as usize } else if r == rows - 1 { 0usize } else { t.lens[r] }),
        ..t
    }
}

/// The terminal after a line feed: the next row, scrolling at the bottom.
pub open spec fn newline(t: TermView, cols: int, rows: int) -> TermView {
    if t.row + 1 >= rows {
        TermView { col: 0, row: (rows - 1) as usize, ..scrolled(t, cols, rows) }
    } else {
        TermView { col: 0, row: (t.row + 1) as usize, ..t }
    }
}

/// The terminal after a printable byte.
pub open spec fn printed(t: TermView, byte: u8, cols: int, rows: int) -> TermView {
    let t2 = if t.col >= cols { newline(t, cols, rows) } else { t };
    let at = t2.row * 160 + t2.col;
    TermView {
        grid: t2.grid.update(at, byte),
        lens: t2.lens.update(t2.row as int, max(t2.lens[t2.row as int] as int, t2.col + 1) as usize),
        col: (t2.col + 1) as usize,
        ..t2
    }
}

/// The terminal with its cursor row blanked from the cursor on.
pub open spec fn erased_line(t: TermView, cols: int) -> TermView {
    TermView {
        grid: Seq::new(TERM_CELLS as nat, |i: int|
            if t.row * 160 + t.col <= i < t.row * 160 + cols { 0u8 } else { t.grid[i] }),
        lens: t.lens.update(t.row as int, min(t.lens[t.row as int] as int, t.col as int) as usize),
        ..t
    }
}

/// The terminal after the final byte `byte` of an escape sequence.
pub open spec fn csi_done(t: TermView, byte: u8, cols: int) -> TermView {
    let value = if t.csi_has_value { t.csi_value as int } else { 1 };
    let t2 = if byte == 71 {
        TermView { col: min(sat_sub(value, 1), cols - 1) as usize, ..t }
    } else if byte == 67 {
        TermView { col: min(sat(t.col + value), cols - 1) as usize, ..t }
    } else if byte == 68 {
        TermView { col: sat_sub(t.col as int, value) as usize, ..t }
    } else if byte == 72 || byte == 102 {
        TermView { col: 0, row: 0, ..t }
    } else if byte == 74 {
        blank_term()
    } else if byte == 75 {
        erased_line(t, cols)
    } else {
        t
    };
    TermView { ansi_state: 0, csi_value: 0, csi_has_value: false, ..t2 }
}

/// The terminal after `byte` is written to it, on a grid of `cols` by `rows`.
pub open spec fn term_step(t: TermView, byte: u8, cols: int, rows: int) -> TermView {
    if t.ansi_state == 0 && byte == 0x1b {
        TermView { ansi_state: 1, ..t }
    } else if t.ansi_state == 1 {
        if byte == 91 { TermView { ansi_state: 2, csi_value: 0, csi_has_value: false, ..t } }
        else { TermView { ansi_state: 0, ..t } }
    } else if t.ansi_state != 0 {
        if 48 <= byte <= 57 {
            TermView { csi_value: sat(sat(t.csi_value * 10) + (byte - 48)) as usize, csi_has_value: true, ..t }
        } else if byte == 63 || byte == 59 {
            t
        } else {
            csi_done(t, byte, cols)
        }
    } else if byte == 13 {
        TermView { col: 0, ..t }
    } else if byte == 10 {
        newline(t, cols, rows)
    } else if byte == 8 || byte == 127 {
        if t.col > 0 {
            let c = (t.col - 1) as usize;
            TermView {
                grid: t.grid.update(t.row * 160 + c, 0u8),
                lens: t.lens.update(t.row as int, c),
                col: c,
                ..t
            }
        } else {
            t
        }
    } else if byte >= 0x20 {
        printed(t, byte, cols, rows)
    } else {
        t
    }
}

/// The terminal after each byte of `bytes`, in order.
pub open spec fn term_steps(t: TermView, bytes: Seq<u8>, cols: int, rows: int) -> TermView
    decreases bytes.len(),
{
    if bytes.len() == 0 { t } else { term_step(term_steps(t, bytes.drop_last(), cols, rows), bytes.last(), cols, rows) }
}

/// The screen service.
pub struct Gui {
    pub fb: Option<Framebuffer>,
    pub font: FontState,
    pub console: Vec<u8>,
    pub console_write: usize,
    pub console_seq: u64,
    pub term: Terminal,
    pub written: Ghost<Seq<u8>>,
}

/// Whether pixel (`px`, `py`) is a set pixel of the glyph for `byte`
/// drawn at (`x`, `y`).
pub open spec fn glyph_cover(font: FontState, byte: u8, x: int, y: int, px: int, py: int) -> bool {
    &&& x <= px < x + font.font.width
    &&& y <= py < y + font.font.height
    &&& glyph_bit_spec(font, byte, py - y, px - x)
}

/// Whether pixel (`px`, `py`) is a set pixel of one of the first `n`
/// glyphs of `bytes` drawn from (`x`, `y`), each a glyph's width and one
/// column after the one before.
pub open spec fn text_cover(font: FontState, bytes: Seq<u8>, x: int, y: int, n: int, px: int, py: int) -> bool {
    exists|k: int| 0 <= k < n && #[trigger] glyph_cover(font, bytes[k], x + k * (font.font.width + 1), y, px, py)
}

/// What redrawing leaves on the screen of `a` in `b`: each on-screen pixel
/// that `paint` gives a colour has it, the others are as they were (a
/// framebuffer that cannot be drawn on keeps its bytes).
pub open spec fn painted(a: Gui, b: Gui, paint: spec_fn(int, int) -> Option<u32>) -> bool {
    a.fb matches Some(f0) ==> (b.fb matches Some(f1) && {
        &&& !f0.drawable() ==> f1.bytes@ == f0.bytes@
        &&& f0.drawable() ==> forall|px: int, py: int| f0.on_screen(px, py) ==>
            #[trigger] f1.pixel_at(px, py) == match paint(px, py) {
                Some(c) => crate::framebuffer::pixel_bytes(c, f0.bytes_per_pixel as int),
                None => f0.pixel_at(px, py),
            }
    })
}

/// The colour drawing terminal cell (`col`, `row`) with `byte` gives pixel
/// (`px`, `py`): text colour on the set pixels of its glyph (none for a
/// space), background on the rest of the cell, nothing outside it.
pub open spec fn cell_paint(font: FontState, col: int, row: int, byte: u8, px: int, py: int) -> Option<u32> {
    let advance = font.font.width + 1;
    let line_h = font.font.height + 2;
    let x = col * advance;
    let y = row * line_h;
    if byte != 32 && glyph_cover(font, byte, x, y, px, py) {
        Some(TERM_FG)
    } else if x <= px < x + advance && y <= py < y + line_h {
        Some(TERM_BG)
    } else {
        None
    }
}

/// The colour the cursor bar gives pixel (`px`, `py`): text colour on the
/// two rows under the glyph of the cursor's cell, when the cursor lies in a
/// grid of `cols` by `rows`.
pub open spec fn cursor_paint(t: TermView, font: FontState, cols: int, rows: int, px: int, py: int) -> Option<u32> {
    let x = t.col * (font.font.width + 1);
    let y = t.row * (font.font.height + 2) + font.font.height;
    if t.col < cols && t.row < rows && x <= px < x + font.font.width && y <= py < y + 2 {
        Some(TERM_FG)
    } else {
        None
    }
}

/// The colour redrawing the first `len` cells of terminal row `row` gives
/// pixel (`px`, `py`): that of the cell it lies in, when that cell holds a
/// byte.
pub open spec fn row_paint(t: TermView, font: FontState, row: int, len: int, px: int, py: int) -> Option<u32> {
    let advance = font.font.width + 1;
    let c = px / advance;
    if px < 0 || c >= len || t.grid[row * TERM_MAX_COLS + c] == 0 {
        None
    } else {
        cell_paint(font, c, row, t.grid[row * TERM_MAX_COLS + c], px, py)
    }
}

/// The colour redrawing the first `rows` rows (each up to `cols` cells, and
/// no further than it is written) gives pixel (`px`, `py`).
pub open spec fn rows_paint(t: TermView, font: FontState, rows: int, cols: int, px: int, py: int) -> Option<u32> {
    let r = py / (font.font.height + 2);
    if py < 0 || r >= rows {
        None
    } else {
        row_paint(t, font, r, min(t.lens[r] as int, cols), px, py)
    }
}

/// A point of a cell lies in that cell's column.
proof fn lemma_cell_index(p: int, c: int, size: int)
    requires size > 0, c * size <= p < c * size + size,
    ensures p / size == c,
{
    assert(p / size == c) by (nonlinear_arith) requires size > 0, c * size <= p < c * size + size;
}

/// The pixels a cell paints lie in the cell.
proof fn lemma_cell_paint_inside(font: FontState, col: int, row: int, byte: u8, px: int, py: int)
    requires font.font.width <= 32, font.font.height <= 32,
    ensures
        cell_paint(font, col, row, byte, px, py) is Some ==> {
            &&& col * (font.font.width + 1) <= px < col * (font.font.width + 1) + font.font.width + 1
            &&& row * (font.font.height + 2) <= py < row * (font.font.height + 2) + font.font.height + 2
        },
{
}

/// The character grid a framebuffer of `width` by `height` holds with
/// cells of `advance` by `line_h`: at least one and at most the maximum
/// each way.
pub open spec fn grid_of(width: int, height: int, advance: int, line_h: int) -> (int, int) {
    let cols = width / advance;
    let rows = height / line_h;
    (if cols < 1 { 1 } else if cols > 160 { 160 } else { cols },
     if rows < 1 { 1 } else if rows > 64 { 64 } else { rows })
}

impl Gui {
    /// Everything but the pixels is as in `other`.
    pub open spec fn keeps_text(&self, other: &Gui) -> bool {
        &&& self.term@ == other.term@
        &&& self.written@ == other.written@
        &&& self.console_seq == other.console_seq
        &&& self.console@ == other.console@
        &&& self.console_write == other.console_write
        &&& self.font == other.font
    }

    /// The framebuffer is there if it was, with the same geometry.
    pub open spec fn keeps_screen(&self, other: &Gui) -> bool {
        &&& other.fb is None ==> self.fb is None
        &&& other.fb matches Some(f0) ==> (self.fb matches Some(f1) && f1.width == f0.width && f1.height == f0.height
                && f1.pitch == f0.pitch && f1.bytes_per_pixel == f0.bytes_per_pixel)
    }

    /// The service's invariant.
    pub open spec fn wf(&self) -> bool {
        &&& self.console@.len() == CONSOLE_LEN
        &&& self.console_write == self.written@.len()
        &&& forall|i: int| 0 <= i < self.written@.len() && self.written@.len() - CONSOLE_LEN <= i
                ==> self.console@[i % (CONSOLE_LEN as int)] == #[trigger] self.written@[i]
        &&& self.font.font.width <= 32 && self.font.font.height <= 32
        &&& self.term.grid@.len() == TERM_CELLS
        &&& self.term.lens@.len() == TERM_MAX_ROWS
        &&& (self.fb matches Some(fb) ==> fb.wf() && term_ok(self.term@, self.cols(), self.rows()))
    }

    /// Terminal columns.
    pub open spec fn cols(&self) -> int {
        match self.fb {
            Some(fb) => grid_of(fb.width as int, fb.height as int, self.font.font.width + 1, self.font.font.height + 2).0,
            None => 1,
        }
    }

    /// Terminal rows.
    pub open spec fn rows(&self) -> int {
        match self.fb {
            Some(fb) => grid_of(fb.width as int, fb.height as int, self.font.font.width + 1, self.font.font.height + 2).1,
            None => 1,
        }
    }

    /// The bytes `console_byte` reports: the last `CONSOLE_LEN` written.
    pub open spec fn history(&self) -> Seq<u8> {
        let n = self.written@.len();
        if n <= CONSOLE_LEN { self.written@ } else { self.written@.subrange(n - CONSOLE_LEN, n as int) }
    }

    /// No framebuffer yet, an empty console and a blank terminal.
    pub fn new() -> (r: Gui)
        ensures
            r.wf(),
            r.fb is None,
            r.written@ == Seq::<u8>::empty(),
            r.term@ == blank_term(),
            r.console_seq == 0,
    {
        let font = FontState::new();
        let term = Terminal {
            grid: vec![0u8; TERM_CELLS],
            lens: vec![0usize; TERM_MAX_ROWS],
            col: 0, row: 0, ansi_state: 0, csi_value: 0, csi_has_value: false,
        };
        proof {
            assert(term@.grid =~= blank_term().grid);
            assert(term@.lens =~= blank_term().lens);
        }
        Gui { fb: None, font, console: vec![0u8; CONSOLE_LEN], console_write: 0, console_seq: 0, term, written: Ghost(Seq::empty()) }
    }

    /// The grid the framebuffer holds, if there is one.
    fn terminal_grid(&self) -> (r: Option<(usize, usize)>)
        requires self.wf(),
        ensures
            self.fb is None ==> r is None,
            self.fb is Some ==> r == Some((self.cols() as usize, self.rows() as usize)),
    {
        match &self.fb {
            None => None,
            Some(fb) => {
                let advance = self.font.font.width + 1;
                let line_h = self.font.font.height + 2;
                let cols = fb.width / advance;
                let rows = fb.height / line_h;
                let cols = if cols < 1 { 1 } else if cols > TERM_MAX_COLS { TERM_MAX_COLS } else { cols };
                let rows = if rows < 1 { 1 } else if rows > TERM_MAX_ROWS { TERM_MAX_ROWS } else { rows };
                Some((cols, rows))
            },
        }
    }

    /// Installs the framebuffer and blanks the terminal and the screen.
    pub fn install(&mut self, framebuffer: Framebuffer)
        requires old(self).wf(), framebuffer.wf(),
        ensures
            final(self).wf(),
            final(self).fb matches Some(fb) && fb.width == framebuffer.width && fb.height == framebuffer.height,
            final(self).term@ == blank_term(),
            final(self).written@ == old(self).written@,
    {
        self.fb = Some(framebuffer);
        self.reset_terminal_screen();
    }

    /// Loads a PSF2 font for the terminal.
    pub fn load_font_psf(&mut self, bytes: &[u8]) -> (r: bool)
        requires old(self).wf(),
        ensures
            final(self).wf(),
            r == (psf2_spec(bytes@) is Some && bytes@.len() <= MAX_FONT_BYTES),
            final(self).written@ == old(self).written@,
    {
        let ok = load_psf(&mut self.font, bytes);
        if ok {
            self.reset_terminal_screen();
        }
        ok
    }

    /// Fills the screen with `color`.
    pub fn clear(&mut self, color: u32)
        requires old(self).wf(),
        ensures
            final(self).wf(),
            final(self).keeps_text(&*old(self)),
            final(self).keeps_screen(&*old(self)),
            old(self).fb matches Some(fb0) ==> final(self).fb matches Some(fb1) && {
                &&& fb1.width == fb0.width && fb1.height == fb0.height
                &&& fb1.pitch == fb0.pitch && fb1.bytes_per_pixel == fb0.bytes_per_pixel
                &&& !fb0.drawable() ==> fb1.bytes@ == fb0.bytes@
                &&& fb0.drawable() ==> forall|px: int, py: int| fb0.on_screen(px, py) ==>
                    #[trigger] fb1.pixel_at(px, py) == crate::framebuffer::pixel_bytes(color, fb0.bytes_per_pixel as int)
            },
    {
        match self.fb.take() {
            Some(mut fb) => {
                fb.clear(Color(color));
                self.fb = Some(fb);
            },
            None => {},
        }
    }

    /// Fills the on-screen part of a rectangle with `color`.
    pub fn rect(&mut self, x: usize, y: usize, width: usize, height: usize, color: u32)
        requires
            old(self).wf(),
            x + width <= usize::MAX,
            y + height <= usize::MAX,
        ensures
            final(self).wf(),
            final(self).keeps_text(&*old(self)),
            final(self).keeps_screen(&*old(self)),
            old(self).fb matches Some(fb0) ==> final(self).fb matches Some(fb1) && {
                &&& fb1.width == fb0.width && fb1.height == fb0.height
                &&& fb1.pitch == fb0.pitch && fb1.bytes_per_pixel == fb0.bytes_per_pixel
                &&& !fb0.drawable() ==> fb1.bytes@ == fb0.bytes@
                &&& fb0.drawable() ==> forall|px: int, py: int| fb0.on_screen(px, py) ==>
                    #[trigger] fb1.pixel_at(px, py) == if x <= px < x + width && y <= py < y + height {
                        crate::framebuffer::pixel_bytes(color, fb0.bytes_per_pixel as int)
                    } else {
                        fb0.pixel_at(px, py)
                    }
            },
    {
        match self.fb.take() {
            Some(mut fb) => {
                fb.rect(x, y, width, height, Color(color));
                self.fb = Some(fb);
            },
            None => {},
        }
    }

    /// Draws the set pixels of the glyph for `byte` at (`x`, `y`).
    fn draw_char(&mut self, x: usize, y: usize, byte: u8, color: u32)
        requires
            old(self).wf(),
            x + 32 <= usize::MAX,
            y + 32 <= usize::MAX,
        ensures
            final(self).wf(),
            final(self).keeps_text(&*old(self)),
            final(self).keeps_screen(&*old(self)),
            old(self).fb matches Some(fb0) ==> final(self).fb matches Some(fb1) && {
                &&& !fb0.drawable() ==> fb1.bytes@ == fb0.bytes@
                &&& fb0.drawable() ==> forall|px: int, py: int| fb0.on_screen(px, py) ==>
                    #[trigger] fb1.pixel_at(px, py) == if glyph_cover(old(self).font, byte, x as int, y as int, px, py) {
                        crate::framebuffer::pixel_bytes(color, fb0.bytes_per_pixel as int)
                    } else {
                        fb0.pixel_at(px, py)
                    }
            },
    {
        let ghost fb0 = self.fb->0;
        let mut fb = match self.fb.take() { Some(fb) => fb, None => return };
        let h = self.font.font.height;
        let w = self.font.font.width;
        let mut row: usize = 0;
        while row < h
            invariant
                fb.wf(), h <= 32, w <= 32, x + 32 <= usize::MAX, y + 32 <= usize::MAX,
                h == self.font.font.height, w == self.font.font.width, row <= h,
                self.font == old(self).font, fb0 == old(self).fb->0,
                fb.width == fb0.width, fb.height == fb0.height,
                fb.pitch == fb0.pitch, fb.bytes_per_pixel == fb0.bytes_per_pixel,
                !fb0.drawable() ==> fb.bytes@ == fb0.bytes@,
                fb0.drawable() ==> forall|px: int, py: int| fb0.on_screen(px, py) ==>
                    #[trigger] fb.pixel_at(px, py) == if glyph_cover(self.font, byte, x as int, y as int, px, py) && py < y + row {
                        crate::framebuffer::pixel_bytes(color, fb0.bytes_per_pixel as int)
                    } else {
                        fb0.pixel_at(px, py)
                    },
            decreases h - row,
        {
            let mut col: usize = 0;
            while col < w
                invariant
                    fb.wf(), h <= 32, w <= 32, row < h, x + 32 <= usize::MAX, y + 32 <= usize::MAX,
                    h == self.font.font.height, w == self.font.font.width, col <= w,
                    self.font == old(self).font, fb0 == old(self).fb->0,
                    fb.width == fb0.width, fb.height == fb0.height,
                    fb.pitch == fb0.pitch, fb.bytes_per_pixel == fb0.bytes_per_pixel,
                    !fb0.drawable() ==> fb.bytes@ == fb0.bytes@,
                    fb0.drawable() ==> forall|px: int, py: int| fb0.on_screen(px, py) ==>
                        #[trigger] fb.pixel_at(px, py) == if glyph_cover(self.font, byte, x as int, y as int, px, py)
                            && (py < y + row || (py == y + row && px < x + col)) {
                            crate::framebuffer::pixel_bytes(color, fb0.bytes_per_pixel as int)
                        } else {
                            fb0.pixel_at(px, py)
                        },
                decreases w - col,
            {
                if glyph_bit(&self.font, byte, row, col) {
                    fb.pixel(x + col, y + row, Color(color));
                }
                col += 1;
            }
            row += 1;
        }
        self.fb = Some(fb);
    }

    /// Draws `bytes` (at most 256) left to right from (`x`, `y`), a glyph
    /// and a blank column apart.
    pub fn text(&mut self, x: usize, y: usize, bytes: &[u8], color: u32)
        requires
            old(self).wf(),
            x + 256 * 33 + 32 <= usize::MAX,
            y + 32 <= usize::MAX,
        ensures
            final(self).wf(),
            final(self).keeps_text(&*old(self)),
            final(self).keeps_screen(&*old(self)),
            bytes@.len() > 256 ==> final(self).fb == old(self).fb,
            bytes@.len() <= 256 ==> (old(self).fb matches Some(fb0) ==> final(self).fb matches Some(fb1) && {
                &&& !fb0.drawable() ==> fb1.bytes@ == fb0.bytes@
                &&& fb0.drawable() ==> forall|px: int, py: int| fb0.on_screen(px, py) ==>
                    #[trigger] fb1.pixel_at(px, py) == if text_cover(old(self).font, bytes@, x as int, y as int, bytes@.len() as int, px, py) {
                        crate::framebuffer::pixel_bytes(color, fb0.bytes_per_pixel as int)
                    } else {
                        fb0.pixel_at(px, py)
                    }
            }),
    {
        if bytes.len() > 256 {
            return;
        }
        let ghost fb0 = self.fb->0;
        let advance = self.font.font.width + 1;
        let mut cursor = x;
        let mut i: usize = 0;
        while i < bytes.len()
            invariant
                self.wf(), bytes@.len() <= 256, i <= bytes@.len(),
                advance == self.font.font.width + 1, advance <= 33,
                cursor == x + i * advance,
                x + 256 * 33 + 32 <= usize::MAX, y + 32 <= usize::MAX,
                self.keeps_text(&*old(self)),
                self.keeps_screen(&*old(self)),
                fb0 == old(self).fb->0,
                old(self).fb matches Some(f0) ==> self.fb matches Some(f) && {
                    &&& !f0.drawable() ==> f.bytes@ == f0.bytes@
                    &&& f0.drawable() ==> forall|px: int, py: int| f0.on_screen(px, py) ==>
                        #[trigger] f.pixel_at(px, py) == if text_cover(self.font, bytes@, x as int, y as int, i as int, px, py) {
                            crate::framebuffer::pixel_bytes(color, f0.bytes_per_pixel as int)
                        } else {
                            f0.pixel_at(px, py)
                        }
                },
            decreases bytes@.len() - i,
        {
            assert(i * advance <= 256 * 33) by (nonlinear_arith) requires i <= 256, advance <= 33;
            let ghost before = *self;
            self.draw_char(cursor, y, bytes[i], color);
            proof {
                if old(self).fb is Some && fb0.drawable() {
                    let f = self.fb->0;
                    assert forall|px: int, py: int| fb0.on_screen(px, py) implies
                        #[trigger] f.pixel_at(px, py) == if text_cover(self.font, bytes@, x as int, y as int, i + 1, px, py) {
                            crate::framebuffer::pixel_bytes(color, fb0.bytes_per_pixel as int)
                        } else {
                            fb0.pixel_at(px, py)
                        } by {
                        let cur = glyph_cover(self.font, bytes@[i as int], cursor as int, y as int, px, py);
                        assert(before.fb->0.on_screen(px, py));
                        if text_cover(self.font, bytes@, x as int, y as int, i as int, px, py) {
                            let k = choose|k: int| 0 <= k < i && #[trigger] glyph_cover(self.font, bytes@[k], x + k * advance, y as int, px, py);
                            assert(0 <= k < i + 1 && glyph_cover(self.font, bytes@[k], x + k * advance, y as int, px, py));
                        }
                        if cur {
                            assert(glyph_cover(self.font, bytes@[i as int], x + i * advance, y as int, px, py));
                        }
                        if text_cover(self.font, bytes@, x as int, y as int, i + 1, px, py) && !cur {
                            let k = choose|k: int| 0 <= k < i + 1 && #[trigger] glyph_cover(self.font, bytes@[k], x + k * advance, y as int, px, py);
                            assert(k != i);
                        }
                    }
                }
            }
            assert((i + 1) * advance == i * advance + advance) by (nonlinear_arith);
            assert((i + 1) * advance <= 256 * 33) by (nonlinear_arith) requires i < 256, advance <= 33;
            cursor = cursor + advance;
            i += 1;
        }
    }

    /// Redraws cell (`col`, `row`) of the terminal with `byte`.
    fn draw_terminal_cell(&mut self, col: usize, row: usize, byte: u8)
        requires old(self).wf(), col <= TERM_MAX_COLS, row <= TERM_MAX_ROWS,
        ensures
            final(self).wf(),
            final(self).keeps_text(&*old(self)),
            final(self).keeps_screen(&*old(self)),
            painted(*old(self), *final(self), |px: int, py: int| cell_paint(old(self).font, col as int, row as int, byte, px, py)),
    {
        let advance = self.font.font.width + 1;
        let line_h = self.font.font.height + 2;
        assert(col * advance <= 160 * 33 && row * line_h <= 64 * 34) by (nonlinear_arith)
            requires col <= 160, row <= 64, advance <= 33, line_h <= 34;
        let x = col * advance;
        let y = row * line_h;
        let ghost g0 = *self;
        self.rect(x, y, advance, line_h, TERM_BG);
        let ghost g1 = *self;
        if byte != 32 {
            self.draw_char(x, y, byte, TERM_FG);
        }
        proof {
            if g0.fb is Some && g0.fb->0.drawable() {
                let f0 = g0.fb->0;
                let f1 = g1.fb->0;
                let f2 = self.fb->0;
                assert forall|px: int, py: int| f0.on_screen(px, py) implies
                    #[trigger] f2.pixel_at(px, py) == match cell_paint(g0.font, col as int, row as int, byte, px, py) {
                        Some(c) => crate::framebuffer::pixel_bytes(c, f0.bytes_per_pixel as int),
                        None => f0.pixel_at(px, py),
                    } by {
                    assert(f1.pixel_at(px, py) == if x <= px < x + advance && y <= py < y + line_h {
                        crate::framebuffer::pixel_bytes(TERM_BG, f0.bytes_per_pixel as int) } else { f0.pixel_at(px, py) });
                    if byte != 32 {
                        assert(f1.on_screen(px, py));
                        assert(f2.pixel_at(px, py) == if glyph_cover(g1.font, byte, x as int, y as int, px, py) {
                            crate::framebuffer::pixel_bytes(TERM_FG, f1.bytes_per_pixel as int) } else { f1.pixel_at(px, py) });
                    }
                }
            }
        }
    }

    /// Draws the cell under the cursor as it is (removing the cursor mark).
    fn hide_cursor(&mut self)
        requires old(self).wf(),
        ensures
            final(self).wf(),
            final(self).keeps_text(&*old(self)),
            final(self).keeps_screen(&*old(self)),
            painted(*old(self), *final(self), |px: int, py: int| {
                let t = old(self).term@;
                if t.row < TERM_MAX_ROWS && t.col < TERM_MAX_COLS {
                    cell_paint(old(self).font, t.col as int, t.row as int, t.grid[t.row * TERM_MAX_COLS + t.col], px, py)
                } else {
                    None
                }
            }),
            old(self).term@.row >= TERM_MAX_ROWS || old(self).term@.col >= TERM_MAX_COLS ==> *final(self) == *old(self),
    {
        let row = self.term.row;
        let col = self.term.col;
        if row >= TERM_MAX_ROWS || col >= TERM_MAX_COLS {
            return;
        }
        let byte = self.term.grid[row * TERM_MAX_COLS + col];
        self.draw_terminal_cell(col, row, byte);
    }

    /// Marks the cursor with a bar under its cell.
    fn show_cursor(&mut self)
        requires old(self).wf(),
        ensures
            final(self).wf(),
            final(self).keeps_text(&*old(self)),
            final(self).keeps_screen(&*old(self)),
            painted(*old(self), *final(self),
                |px: int, py: int| cursor_paint(old(self).term@, old(self).font, old(self).cols(), old(self).rows(), px, py)),
    {
        let (cols, rows) = match self.terminal_grid() { Some(g) => g, None => return };
        if self.term.col >= cols || self.term.row >= rows {
            return;
        }
        let advance = self.font.font.width + 1;
        let line_h = self.font.font.height + 2;
        let col = self.term.col;
        let row = self.term.row;
        assert(col * advance <= 160 * 33 && row * line_h <= 64 * 34) by (nonlinear_arith)
            requires col <= 160, row <= 64, advance <= 33, line_h <= 34;
        let x = col * advance;
        let y = row * line_h + self.font.font.height;
        let w = self.font.font.width;
        let ghost g0 = *self;
        self.rect(x, y, w, 2, TERM_FG);
        proof {
            if g0.fb->0.drawable() {
                let f0 = g0.fb->0;
                let f1 = self.fb->0;
                assert forall|px: int, py: int| f0.on_screen(px, py) implies
                    #[trigger] f1.pixel_at(px, py) == match cursor_paint(g0.term@, g0.font, g0.cols(), g0.rows(), px, py) {
                        Some(c) => crate::framebuffer::pixel_bytes(c, f0.bytes_per_pixel as int),
                        None => f0.pixel_at(px, py),
                    } by {
                    assert(f1.pixel_at(px, py) == if x <= px < x + w && y <= py < y + 2 {
                        crate::framebuffer::pixel_bytes(TERM_FG, f0.bytes_per_pixel as int) } else { f0.pixel_at(px, py) });
                }
            }
        }
    }

    /// Redraws row `row` of the terminal.
    fn draw_terminal_row(&mut self, row: usize, cols: usize)
        requires old(self).wf(), row < TERM_MAX_ROWS, cols <= TERM_MAX_COLS,
        ensures
            final(self).wf(),
            final(self).keeps_text(&*old(self)),
            final(self).keeps_screen(&*old(self)),
            painted(*old(self), *final(self), |px: int, py: int|
                row_paint(old(self).term@, old(self).font, row as int, min(old(self).term@.lens[row as int] as int, cols as int), px, py)),
    {
        let len = if self.term.lens[row] < cols { self.term.lens[row] } else { cols };
        let mut col: usize = 0;
        proof {
            if old(self).fb is Some {
                let f0 = old(self).fb->0;
                assert forall|px: int, py: int| f0.on_screen(px, py) implies
                    #[trigger] f0.pixel_at(px, py) == match row_paint(old(self).term@, old(self).font, row as int, 0, px, py) {
                        Some(c) => crate::framebuffer::pixel_bytes(c, f0.bytes_per_pixel as int),
                        None => f0.pixel_at(px, py),
                    } by {}
            }
        }
        while col < len
            invariant
                self.wf(), row < TERM_MAX_ROWS, len <= cols, cols <= TERM_MAX_COLS, col <= len,
                len == min(old(self).term@.lens[row as int] as int, cols as int),
                self.keeps_text(&*old(self)),
                self.keeps_screen(&*old(self)),
                painted(*old(self), *self, |px: int, py: int| row_paint(old(self).term@, old(self).font, row as int, col as int, px, py)),
            decreases len - col,
        {
            let byte = self.term.grid[row * TERM_MAX_COLS + col];
            let ghost g = *self;
            if byte != 0 {
                self.draw_terminal_cell(col, row, byte);
            }
            proof {
                let t = old(self).term@;
                let font = old(self).font;
                if old(self).fb is Some && old(self).fb->0.drawable() {
                    let f0 = old(self).fb->0;
                    let fg = g.fb->0;
                    let f1 = self.fb->0;
                    assert forall|px: int, py: int| f0.on_screen(px, py) implies
                        #[trigger] f1.pixel_at(px, py) == match row_paint(t, font, row as int, col + 1, px, py) {
                            Some(c) => crate::framebuffer::pixel_bytes(c, f0.bytes_per_pixel as int),
                            None => f0.pixel_at(px, py),
                        } by {
                        let advance = font.font.width + 1;
                        assert(fg.pixel_at(px, py) == match row_paint(t, font, row as int, col as int, px, py) {
                            Some(c) => crate::framebuffer::pixel_bytes(c, f0.bytes_per_pixel as int),
                            None => f0.pixel_at(px, py),
                        });
                        lemma_cell_paint_inside(font, col as int, row as int, byte, px, py);
                        if byte != 0 {
                            assert(fg.on_screen(px, py));
                            assert(f1.pixel_at(px, py) == match cell_paint(font, col as int, row as int, byte, px, py) {
                                Some(c) => crate::framebuffer::pixel_bytes(c, fg.bytes_per_pixel as int),
                                None => fg.pixel_at(px, py),
                            });
                            if cell_paint(font, col as int, row as int, byte, px, py) is Some {
                                lemma_cell_index(px, col as int, advance);
                            }
                        }
                        if px >= 0 && px / advance == col {
                            assert(row_paint(t, font, row as int, col as int, px, py) is None);
                        }
                    }
                }
            }
            col += 1;
        }
    }

    /// Clears the screen and redraws the terminal's text.
    fn redraw_terminal(&mut self, rows: usize, cols: usize)
        requires old(self).wf(), rows <= TERM_MAX_ROWS, cols <= TERM_MAX_COLS,
        ensures
            final(self).wf(),
            final(self).keeps_text(&*old(self)),
            final(self).keeps_screen(&*old(self)),
            painted(*old(self), *final(self), |px: int, py: int|
                Some(match rows_paint(old(self).term@, old(self).font, rows as int, cols as int, px, py) {
                    Some(c) => c,
                    None => TERM_BG,
                })),
    {
        self.clear(TERM_BG);
        let mut row: usize = 0;
        while row < rows
            invariant
                self.wf(), rows <= TERM_MAX_ROWS, cols <= TERM_MAX_COLS, row <= rows,
                self.keeps_text(&*old(self)),
                self.keeps_screen(&*old(self)),
                painted(*old(self), *self, |px: int, py: int|
                    Some(match rows_paint(old(self).term@, old(self).font, row as int, cols as int, px, py) {
                        Some(c) => c,
                        None => TERM_BG,
                    })),
            decreases rows - row,
        {
            let ghost g = *self;
            self.draw_terminal_row(row, cols);
            proof {
                let t = old(self).term@;
                let font = old(self).font;
                let len = min(t.lens[row as int] as int, cols as int);
                if old(self).fb is Some && old(self).fb->0.drawable() {
                    let f0 = old(self).fb->0;
                    let fg = g.fb->0;
                    let f1 = self.fb->0;
                    assert forall|px: int, py: int| f0.on_screen(px, py) implies
                        #[trigger] f1.pixel_at(px, py) == crate::framebuffer::pixel_bytes(
                            match rows_paint(t, font, row + 1, cols as int, px, py) { Some(c) => c, None => TERM_BG },
                            f0.bytes_per_pixel as int) by {
                        let line_h = font.font.height + 2;
                        let advance = font.font.width + 1;
                        assert(fg.pixel_at(px, py) == crate::framebuffer::pixel_bytes(
                            match rows_paint(t, font, row as int, cols as int, px, py) { Some(c) => c, None => TERM_BG },
                            f0.bytes_per_pixel as int));
                        assert(fg.on_screen(px, py));
                        assert(f1.pixel_at(px, py) == match row_paint(t, font, row as int, len, px, py) {
                            Some(c) => crate::framebuffer::pixel_bytes(c, fg.bytes_per_pixel as int),
                            None => fg.pixel_at(px, py),
                        });
                        if row_paint(t, font, row as int, len, px, py) is Some {
                            let c = px / advance;
                            lemma_cell_paint_inside(font, c, row as int, t.grid[row * TERM_MAX_COLS + c], px, py);
                            lemma_cell_index(py, row as int, line_h);
                        }
                        if py >= 0 && py / line_h == row {
                            assert(rows_paint(t, font, row as int, cols as int, px, py) is None);
                        }
                    }
                }
            }
            row += 1;
        }
    }

    /// Blanks the terminal's text and the screen.
    fn reset_terminal_screen(&mut self)
        requires
            old(self).console@.len() == CONSOLE_LEN,
            old(self).console_write == old(self).written@.len(),
            forall|i: int| 0 <= i < old(self).written@.len() && old(self).written@.len() - CONSOLE_LEN <= i
                ==> old(self).console@[i % (CONSOLE_LEN as int)] == #[trigger] old(self).written@[i],
            old(self).font.font.width <= 32 && old(self).font.font.height <= 32,
            old(self).fb matches Some(fb) ==> fb.wf(),
        ensures
            final(self).wf(),
            final(self).term@ == blank_term(),
            final(self).written@ == old(self).written@,
            final(self).console_seq == old(self).console_seq,
            final(self).console@ == old(self).console@,
            final(self).console_write == old(self).console_write,
            final(self).font == old(self).font,
            final(self).keeps_screen(&*old(self)),
    {
        self.term = Terminal {
            grid: vec![0u8; TERM_CELLS],
            lens: vec![0usize; TERM_MAX_ROWS],
            col: 0, row: 0, ansi_state: 0, csi_value: 0, csi_has_value: false,
        };
        proof {
            assert(self.term@.grid =~= blank_term().grid);
            assert(self.term@.lens =~= blank_term().lens);
        }
        self.clear(TERM_BG);
    }

    /// Moves the terminal's text up a row.
    fn scroll_terminal(&mut self, rows: usize, cols: usize)
        requires
            old(self).wf(),
            old(self).fb is Some,
            rows == old(self).rows(), cols == old(self).cols(),
        ensures
            final(self).wf(),
            final(self).term@ == scrolled(old(self).term@, cols as int, rows as int),
            final(self).written@ == old(self).written@,
            final(self).console_seq == old(self).console_seq,
            final(self).console@ == old(self).console@,
            final(self).console_write == old(self).console_write,
            final(self).font == old(self).font,
            final(self).keeps_screen(&*old(self)),
    {
        let ghost t0 = self.term@;
        scroll_grid(&mut self.term.grid, rows);
        scroll_lens(&mut self.term.lens, rows, cols);
        proof {
            assert(self.term@.grid =~= scrolled(t0, cols as int, rows as int).grid);
            assert(self.term@.lens =~= scrolled(t0, cols as int, rows as int).lens);
        }
        self.redraw_terminal(rows, cols);
    }

    /// Blanks from the cursor to the end of its row.
    fn erase_to_end_of_line(&mut self, cols: usize)
        requires old(self).wf(), old(self).fb is Some, cols == old(self).cols(),
        ensures
            final(self).wf(),
            final(self).term@ == erased_line(old(self).term@, cols as int),
            final(self).written@ == old(self).written@,
            final(self).console_seq == old(self).console_seq,
            final(self).console@ == old(self).console@,
            final(self).console_write == old(self).console_write,
            final(self).font == old(self).font,
            final(self).keeps_screen(&*old(self)),
    {
        let row = self.term.row;
        let start = self.term.col;
        let ghost t0 = self.term@;
        blank_cells(&mut self.term.grid, row * TERM_MAX_COLS + start, row * TERM_MAX_COLS + cols);
        let l = self.term.lens[row];
        self.term.lens.set(row, if l < start { l } else { start });
        proof {
            assert(self.term@.grid =~= erased_line(t0, cols as int).grid);
            assert(self.term@.lens =~= erased_line(t0, cols as int).lens);
        }
        let ghost mid = *self;
        let mut col = start;
        while col < cols
            invariant
                self.wf(), row < 64, cols <= 160,
                self.keeps_text(&mid),
                self.keeps_screen(&mid),
            decreases cols - col,
        {
            self.draw_terminal_cell(col, row, 32);
            col += 1;
        }
    }

    /// Reads `byte` as part of an escape sequence, when it is one: ESC,
    /// `[`, decimal digits, and a final letter that moves the cursor (`G`,
    /// `C`, `D`, `H`, `f`) or erases (`J`, `K`). Returns whether it was.
    fn handle_ansi_byte(&mut self, byte: u8, cols: usize) -> (r: bool)
        requires old(self).wf(), old(self).fb is Some, cols == old(self).cols(),
        ensures
            final(self).wf(),
            r == (old(self).term.ansi_state != 0 || byte == 0x1b),
            r ==> final(self).term@ == term_step(old(self).term@, byte, cols as int, old(self).rows()),
            !r ==> final(self).term@ == old(self).term@,
            final(self).written@ == old(self).written@,
            final(self).console_seq == old(self).console_seq,
            final(self).console@ == old(self).console@,
            final(self).console_write == old(self).console_write,
            final(self).font == old(self).font,
            final(self).keeps_screen(&*old(self)),
    {
        if self.term.ansi_state == 0 {
            if byte == 0x1b {
                self.term.ansi_state = 1;
                return true;
            }
            return false;
        }
        if self.term.ansi_state == 1 {
            if byte == 91 {
                self.term.ansi_state = 2;
                self.term.csi_value = 0;
                self.term.csi_has_value = false;
            } else {
                self.term.ansi_state = 0;
            }
            return true;
        }
        if 48 <= byte && byte <= 57 {
            let tens = match self.term.csi_value.checked_mul(10) { Some(v) => v, None => usize::MAX };
            self.term.csi_value = tens.saturating_add((byte - 48) as usize);
            self.term.csi_has_value = true;
            return true;
        }
        if byte == 63 || byte == 59 {
            return true;
        }
        self.hide_cursor();
        let value = if self.term.csi_has_value { self.term.csi_value } else { 1 };
        if byte == 71 {
            let v = if value >= 1 { value - 1 } else { 0 };
            self.term.col = if v < cols - 1 { v } else { cols - 1 };
        } else if byte == 67 {
            let v = self.term.col.saturating_add(value);
            self.term.col = if v < cols - 1 { v } else { cols - 1 };
        } else if byte == 68 {
            self.term.col = if self.term.col >= value { self.term.col - value } else { 0 };
        } else if byte == 72 || byte == 102 {
            self.term.col = 0;
            self.term.row = 0;
        } else if byte == 74 {
            self.reset_terminal_screen();
        } else if byte == 75 {
            self.erase_to_end_of_line(cols);
        }
        self.term.ansi_state = 0;
        self.term.csi_value = 0;
        self.term.csi_has_value = false;
        self.show_cursor();
        true
    }

    /// Moves the cursor to the start of the next row, scrolling at the bottom.
    fn terminal_newline(&mut self, cols: usize, rows: usize)
        requires old(self).wf(), old(self).fb is Some, cols == old(self).cols(), rows == old(self).rows(),
        ensures
            final(self).wf(),
            final(self).term@ == newline(old(self).term@, cols as int, rows as int),
            final(self).written@ == old(self).written@,
            final(self).console_seq == old(self).console_seq,
            final(self).console@ == old(self).console@,
            final(self).console_write == old(self).console_write,
            final(self).font == old(self).font,
            final(self).keeps_screen(&*old(self)),
    {
        if self.term.row + 1 >= rows {
            self.scroll_terminal(rows, cols);
            self.term.row = rows - 1;
        } else {
            self.term.row = self.term.row + 1;
        }
        self.term.col = 0;
    }

    /// Shows `byte` on the terminal: an escape sequence byte, a carriage
    /// return, a line feed, a backspace or a printable byte (wrapping and
    /// scrolling as needed); other bytes are ignored.
    fn draw_terminal_byte(&mut self, byte: u8)
        requires old(self).wf(),
        ensures
            final(self).wf(),
            old(self).fb is None ==> final(self).term@ == old(self).term@,
            old(self).fb is Some ==> final(self).term@ == term_step(old(self).term@, byte, old(self).cols(), old(self).rows()),
            final(self).written@ == old(self).written@,
            final(self).console_seq == old(self).console_seq,
            final(self).console@ == old(self).console@,
            final(self).console_write == old(self).console_write,
            final(self).font == old(self).font,
            final(self).keeps_screen(&*old(self)),
    {
        let (cols, rows) = match self.terminal_grid() { Some(g) => g, None => return };
        if self.handle_ansi_byte(byte, cols) {
            return;
        }
        self.hide_cursor();
        let ghost t0 = self.term@;
        if byte == 13 {
            self.term.col = 0;
        } else if byte == 10 {
            self.terminal_newline(cols, rows);
        } else if byte == 8 || byte == 127 {
            if self.term.col > 0 {
                let c = self.term.col - 1;
                let r = self.term.row;
                self.term.col = c;
                self.term.grid.set(r * TERM_MAX_COLS + c, 0);
                self.term.lens.set(r, c);
                self.draw_terminal_cell(c, r, 32);
            }
        } else if byte >= 0x20 {
            if self.term.col >= cols {
                self.terminal_newline(cols, rows);
            }
            let c = self.term.col;
            let r = self.term.row;
            self.term.grid.set(r * TERM_MAX_COLS + c, byte);
            let l = self.term.lens[r];
            self.term.lens.set(r, if l > c + 1 { l } else { c + 1 });
            self.draw_terminal_cell(c, r, byte);
            self.term.col = c + 1;
        }
        proof {
            let t1 = term_step(t0, byte, cols as int, rows as int);
            assert(self.term@.grid =~= t1.grid);
            assert(self.term@.lens =~= t1.lens);
        }
        self.show_cursor();
    }

    /// Writes `bytes` to the console: they join its history and are shown
    /// on the terminal.
    pub fn console_write(&mut self, bytes: &[u8])
        requires
            old(self).wf(),
            old(self).console_write + bytes@.len() <= usize::MAX,
        ensures
            final(self).wf(),
            final(self).written@ == old(self).written@ + bytes@,
            final(self).console_seq == (old(self).console_seq + bytes@.len()) % 0x1_0000_0000_0000_0000,
            final(self).font == old(self).font,
            final(self).keeps_screen(&*old(self)),
            old(self).fb is None ==> final(self).term@ == old(self).term@,
            old(self).fb is Some ==> final(self).term@ == term_steps(old(self).term@, bytes@, old(self).cols(), old(self).rows()),
    {
        let mut i: usize = 0;
        while i < bytes.len()
            invariant
                self.wf(), old(self).wf(),
                i <= bytes@.len(),
                old(self).console_write + bytes@.len() <= usize::MAX,
                self.written@ == old(self).written@ + bytes@.subrange(0, i as int),
                self.console_seq == (old(self).console_seq + i) % 0x1_0000_0000_0000_0000,
                self.font == old(self).font,
                self.keeps_screen(&*old(self)),
                self.cols() == old(self).cols(), self.rows() == old(self).rows(),
                old(self).fb is None ==> self.term@ == old(self).term@,
                old(self).fb is Some ==> self.term@ == term_steps(old(self).term@, bytes@.subrange(0, i as int), old(self).cols(), old(self).rows()),
            decreases bytes@.len() - i,
        {
            let byte = bytes[i];
            let ghost w0 = self.written@;
            let at = self.console_write % CONSOLE_LEN;
            self.console.set(at, byte);
            self.console_write = self.console_write + 1;
            self.console_seq = self.console_seq.wrapping_add(1);
            self.written = Ghost(w0.push(byte));
            proof {
                let n = w0.len() as int;
                assert forall|k: int| 0 <= k < self.written@.len() && self.written@.len() - CONSOLE_LEN <= k implies
                    self.console@[k % (CONSOLE_LEN as int)] == #[trigger] self.written@[k] by {
                    if k < n {
                        assert(k % 2048 != n % 2048);
                    }
                }
                assert(bytes@.subrange(0, i as int + 1) =~= bytes@.subrange(0, i as int).push(byte));
                assert(bytes@.subrange(0, i as int + 1).drop_last() =~= bytes@.subrange(0, i as int));
            }
            self.draw_terminal_byte(byte);
            i += 1;
        }
        proof { assert(bytes@.subrange(0, bytes@.len() as int) =~= bytes@); }
    }

    /// Empties the console history and blanks the terminal and the screen.
    pub fn reset_console(&mut self)
        requires old(self).wf(),
        ensures
            final(self).wf(),
            final(self).written@ == Seq::<u8>::empty(),
            final(self).console_seq == (old(self).console_seq + 1) % 0x1_0000_0000_0000_0000,
            final(self).term@ == blank_term(),
            final(self).font == old(self).font,
            final(self).keeps_screen(&*old(self)),
    {
        self.console = vec![0u8; CONSOLE_LEN];
        self.console_write = 0;
        self.written = Ghost(Seq::empty());
        self.console_seq = self.console_seq.wrapping_add(1);
        self.reset_terminal_screen();
    }

    /// A counter that changes whenever the console does.
    pub fn console_seq(&self) -> (r: u64)
        ensures r == self.console_seq,
    {
        self.console_seq
    }

    /// How many bytes of history `console_byte` reports.
    pub fn console_len(&self) -> (r: usize)
        requires self.wf(),
        ensures r == self.history().len(),
    {
        if self.console_write < CONSOLE_LEN { self.console_write } else { CONSOLE_LEN }
    }

    /// Byte `index` of the history (oldest first), or zero past its end.
    pub fn console_byte(&self, index: usize) -> (r: u8)
        requires self.wf(),
        ensures r == if index < self.history().len() { self.history()[index as int] } else { 0u8 },
    {
        let len = self.console_len();
        if index >= len {
            return 0;
        }
        let start = self.console_write - len;
        let at = (start + index) % CONSOLE_LEN;
        proof {
            let k = start + index;
            assert(self.console@[k % (CONSOLE_LEN as int)] == self.written@[k]);
        }
        self.console[at]
    }
}

/// Moves rows 1.. of the first `rows` up one and blanks row `rows - 1`.
fn scroll_grid(grid: &mut Vec<u8>, rows: usize)
    requires old(grid)@.len() == TERM_CELLS, 1 <= rows <= TERM_MAX_ROWS,
    ensures
        final(grid)@ == Seq::new(TERM_CELLS as nat, |i: int|
            if i < (rows - 1) * 160 { old(grid)@[i + 160] } else if i < rows * 160 { 0u8 } else { old(grid)@[i] }),
{
    let limit = (rows - 1) * TERM_MAX_COLS;
    let end = rows * TERM_MAX_COLS;
    let mut i: usize = 0;
    while i < limit
        invariant
            grid@.len() == TERM_CELLS, limit == (rows - 1) * 160, 1 <= rows <= 64,
            i <= limit,
            forall|k: int| 0 <= k < i ==> grid@[k] == old(grid)@[k + 160],
            forall|k: int| i <= k < TERM_CELLS ==> grid@[k] == old(grid)@[k],
        decreases limit - i,
    {
        let b = grid[i + TERM_MAX_COLS];
        grid.set(i, b);
        i += 1;
    }
    while i < end
        invariant
            grid@.len() == TERM_CELLS, limit == (rows - 1) * 160, end == rows * 160, 1 <= rows <= 64,
            limit <= i <= end,
            forall|k: int| 0 <= k < limit ==> grid@[k] == old(grid)@[k + 160],
            forall|k: int| limit <= k < i ==> grid@[k] == 0,
            forall|k: int| i <= k < TERM_CELLS ==> grid@[k] == old(grid)@[k],
        decreases end - i,
    {
        grid.set(i, 0);
        i += 1;
    }
    proof {
        assert(grid@ =~= Seq::new(TERM_CELLS as nat, |i: int|
            if i < (rows - 1) * 160 { old(grid)@[i + 160] } else if i < rows * 160 { 0u8 } else { old(grid)@[i] }));
    }
}

/// Moves the lengths of rows 1.. of the first `rows` up one (limited to
/// `cols`) and empties row `rows - 1`.
fn scroll_lens(lens: &mut Vec<usize>, rows: usize, cols: usize)
    requires old(lens)@.len() == TERM_MAX_ROWS, 1 <= rows <= TERM_MAX_ROWS,
    ensures
        final(lens)@ == Seq::new(TERM_MAX_ROWS as nat, |r: int|
            if r < rows - 1 { min(old(lens)@[r + 1] as int, cols as int) as usize } else if r == rows - 1 { 0usize } else { old(lens)@[r] }),
{
    let mut r: usize = 0;
    while r + 1 < rows
        invariant
            lens@.len() == TERM_MAX_ROWS, 1 <= rows <= 64,
            r + 1 <= rows,
            forall|k: int| 0 <= k < r ==> lens@[k] == min(old(lens)@[k + 1] as int, cols as int),
            forall|k: int| r <= k < TERM_MAX_ROWS ==> lens@[k] == old(lens)@[k],
        decreases rows - r,
    {
        let next = lens[r + 1];
        let v = if next < cols { next } else { cols };
        lens.set(r, v);
        r += 1;
    }
    lens.set(rows - 1, 0);
    proof {
        assert(lens@ =~= Seq::new(TERM_MAX_ROWS as nat, |r: int|
            if r < rows - 1 { min(old(lens)@[r + 1] as int, cols as int) as usize } else if r == rows - 1 { 0usize } else { old(lens)@[r] }));
    }
}

/// Zeroes cells `from..to`.
fn blank_cells(grid: &mut Vec<u8>, from: usize, to: usize)
    requires from <= to <= old(grid)@.len(),
    ensures
        final(grid)@ == Seq::new(old(grid)@.len(), |i: int| if from <= i < to { 0u8 } else { old(grid)@[i] }),
{
    let mut i = from;
    while i < to
        invariant
            from <= i <= to, to <= grid@.len(), grid@.len() == old(grid)@.len(),
            forall|k: int| 0 <= k < grid@.len() ==> grid@[k] == if from <= k < i { 0u8 } else { old(grid)@[k] },
        decreases to - i,
    {
        grid.set(i, 0);
        i += 1;
    }
    proof {
        assert(grid@ =~= Seq::new(old(grid)@.len(), |i: int| if from <= i < to { 0u8 } else { old(grid)@[i] }));
    }
}

} // verus!
