//! A linear framebuffer: rows of `pitch` bytes, each pixel stored as
//! three bytes (blue, green, red) or as a little-endian 32-bit word.
//!
//! The library draws into its own copy of the pixel memory; the kernel
//! shows it by copying `bytes` to the hardware framebuffer at `address`.
use vstd::prelude::*;

verus! {

/// A 0x00RRGGBB colour.
#[derive(Clone, Copy)]
pub struct Color(pub u32);

/// A framebuffer and the pixels drawn into it.
pub struct Framebuffer {
    pub address: u64,
    pub width: usize,
    pub height: usize,
    pub pitch: usize,
    pub bytes_per_pixel: usize,
    pub bytes: Vec<u8>,
}

/// The bytes one pixel of colour `c` takes in memory.
pub open spec fn pixel_bytes(c: u32, bpp: int) -> Seq<u8> {
    if bpp == 3 {
        seq![(c & 0xff) as u8, ((c >> 8u32) & 0xff) as u8, ((c >> 16u32) & 0xff) as u8]
    } else {
        seq![(c & 0xff) as u8, ((c >> 8u32) & 0xff) as u8, ((c >> 16u32) & 0xff) as u8, ((c >> 24u32) & 0xff) as u8]
    }
}

/// Bytes written per pixel.
pub open spec fn pixel_len(bpp: int) -> int {
    if bpp == 3 { 3 } else { 4 }
}

impl Framebuffer {
    /// The framebuffer's invariant: the pixel memory covers every row, and a
    /// row of pixels fits in a pitch.
    pub open spec fn wf(&self) -> bool {
        &&& self.bytes@.len() == self.pitch * self.height
        &&& self.bytes_per_pixel >= 3 ==> self.width * self.bytes_per_pixel <= self.pitch
    }

    /// Whether pixels can be drawn at all.
    pub open spec fn drawable(&self) -> bool {
        self.bytes_per_pixel >= 3
    }

    /// Where pixel (`x`, `y`) starts.
    pub open spec fn offset(&self, x: int, y: int) -> int {
        y * self.pitch + x * self.bytes_per_pixel
    }

    /// The bytes pixel (`x`, `y`) holds in `bytes`.
    pub open spec fn pixel_in(&self, bytes: Seq<u8>, x: int, y: int) -> Seq<u8> {
        bytes.subrange(self.offset(x, y), self.offset(x, y) + pixel_len(self.bytes_per_pixel as int))
    }

    /// The bytes pixel (`x`, `y`) holds.
    pub open spec fn pixel_at(&self, x: int, y: int) -> Seq<u8> {
        self.pixel_in(self.bytes@, x, y)
    }

    /// Whether (`x`, `y`) is on the screen.
    pub open spec fn on_screen(&self, x: int, y: int) -> bool {
        0 <= x < self.width && 0 <= y < self.height
    }

    /// Whether byte `k` belongs to an on-screen pixel of the rectangle at
    /// (`x`, `y`) of the given size.
    pub open spec fn in_rect_pixel(&self, x: int, y: int, width: int, height: int, k: int) -> bool {
        exists|px: int, py: int| self.on_screen(px, py) && x <= px < x + width && y <= py < y + height
            && #[trigger] self.offset(px, py) <= k < self.offset(px, py) + pixel_len(self.bytes_per_pixel as int)
    }

    /// A framebuffer of the given geometry, all pixels zero.
    pub fn new(address: u64, width: usize, height: usize, pitch: usize, bits_per_pixel: usize) -> (r: Framebuffer)
        requires
            pitch * height <= usize::MAX,
            bits_per_pixel / 8 >= 3 ==> width * (bits_per_pixel / 8) <= pitch,
        ensures
            r.wf(),
            r.address == address,
            r.width == width,
            r.height == height,
            r.pitch == pitch,
            r.bytes_per_pixel == bits_per_pixel / 8,
            r.bytes@ == Seq::new((pitch * height) as nat, |i: int| 0u8),
    {
        let len: usize = mul_usize(pitch, height);
        let bytes: Vec<u8> = vec![0u8; len];
        proof { assert(bytes@ =~= Seq::new((pitch * height) as nat, |i: int| 0u8)); }
        Framebuffer { address, width, height, pitch, bytes_per_pixel: bits_per_pixel / 8, bytes }
    }

    /// Colours pixel (`x`, `y`); off-screen pixels and framebuffers of fewer
    /// than three bytes per pixel are left alone.
    pub fn pixel(&mut self, x: usize, y: usize, color: Color)
        requires old(self).wf(),
        ensures
            final(self).wf(),
            final(self).address == old(self).address,
            final(self).width == old(self).width,
            final(self).height == old(self).height,
            final(self).pitch == old(self).pitch,
            final(self).bytes_per_pixel == old(self).bytes_per_pixel,
            !(old(self).on_screen(x as int, y as int) && old(self).drawable()) ==> final(self).bytes@ == old(self).bytes@,
            old(self).on_screen(x as int, y as int) && old(self).drawable() ==> {
                &&& final(self).pixel_at(x as int, y as int) == pixel_bytes(color.0, old(self).bytes_per_pixel as int)
                &&& forall|k: int| 0 <= k < old(self).bytes@.len() && !(old(self).offset(x as int, y as int) <= k
                        < old(self).offset(x as int, y as int) + pixel_len(old(self).bytes_per_pixel as int))
                        ==> final(self).bytes@[k] == old(self).bytes@[k]
            },
            old(self).drawable() ==> forall|px: int, py: int| old(self).on_screen(px, py) ==>
                #[trigger] final(self).pixel_at(px, py) == if px == x && py == y {
                    pixel_bytes(color.0, old(self).bytes_per_pixel as int)
                } else {
                    old(self).pixel_at(px, py)
                },
    {
        if x >= self.width || y >= self.height || self.bytes_per_pixel < 3 {
            return;
        }
        let _len = self.bytes.len();
        proof { lemma_pixel_fits(self.width as int, self.height as int, self.pitch as int, self.bytes_per_pixel as int, x as int, y as int); }
        let row: usize = mul_usize(y, self.pitch);
        let col: usize = mul_usize(x, self.bytes_per_pixel);
        let offset = row + col;
        let c = color.0;
        self.bytes[offset] = (c & 0xff) as u8;
        self.bytes[offset + 1] = ((c >> 8) & 0xff) as u8;
        self.bytes[offset + 2] = ((c >> 16) & 0xff) as u8;
        if self.bytes_per_pixel != 3 {
            self.bytes[offset + 3] = ((c >> 24) & 0xff) as u8;
        }
        proof {
            assert(self.pixel_at(x as int, y as int) =~= pixel_bytes(color.0, self.bytes_per_pixel as int));
            assert forall|px: int, py: int| old(self).on_screen(px, py) && !(px == x && py == y) implies
                #[trigger] self.pixel_at(px, py) == old(self).pixel_at(px, py) by {
                lemma_pixels_disjoint(self.width as int, self.height as int, self.pitch as int,
                    self.bytes_per_pixel as int, px, py, x as int, y as int);
                lemma_pixel_fits(self.width as int, self.height as int, self.pitch as int, self.bytes_per_pixel as int, px, py);
                assert(self.pixel_at(px, py) =~= old(self).pixel_at(px, py));
            }
        }
    }

    /// Fills the part of the rectangle at (`x`, `y`) of the given size that
    /// lies on the screen.
    pub fn rect(&mut self, x: usize, y: usize, width: usize, height: usize, color: Color)
        requires
            old(self).wf(),
            x + width <= usize::MAX,
            y + height <= usize::MAX,
        ensures
            final(self).wf(),
            final(self).address == old(self).address,
            final(self).width == old(self).width,
            final(self).height == old(self).height,
            final(self).pitch == old(self).pitch,
            final(self).bytes_per_pixel == old(self).bytes_per_pixel,
            !old(self).drawable() ==> final(self).bytes@ == old(self).bytes@,
            old(self).drawable() ==> forall|px: int, py: int| old(self).on_screen(px, py) ==>
                #[trigger] final(self).pixel_at(px, py) == if x <= px < x + width && y <= py < y + height {
                    pixel_bytes(color.0, old(self).bytes_per_pixel as int)
                } else {
                    old(self).pixel_at(px, py)
                },
            final(self).bytes@.len() == old(self).bytes@.len(),
            forall|k: int| 0 <= k < old(self).bytes@.len() && !old(self).in_rect_pixel(x as int, y as int, width as int, height as int, k)
                ==> #[trigger] final(self).bytes@[k] == old(self).bytes@[k],
    {
        let x_end = if x + width < self.width { x + width } else { self.width };
        let y_end = if y + height < self.height { y + height } else { self.height };
        let ghost orig = self.bytes@;
        let ghost fb0 = *self;
        let mut yy = y;
        while yy < y_end
            invariant
                self.wf(),
                self.address == fb0.address, self.width == fb0.width, self.height == fb0.height,
                self.pitch == fb0.pitch, self.bytes_per_pixel == fb0.bytes_per_pixel,
                fb0.wf(), fb0.bytes@ == orig,
                x_end <= self.width, y_end <= self.height, y <= yy,
                y < y_end ==> yy <= y_end,
                y >= y_end ==> yy == y,
                x_end == if x + width < fb0.width { x + width } else { fb0.width as int },
                y_end == if y + height < fb0.height { y + height } else { fb0.height as int },
                !self.drawable() ==> self.bytes@ == orig,
                self.bytes@.len() == orig.len(),
                forall|k: int| 0 <= k < orig.len() && !fb0.in_rect_pixel(x as int, y as int, width as int, height as int, k)
                    ==> #[trigger] self.bytes@[k] == orig[k],
                self.drawable() ==> forall|px: int, py: int| self.on_screen(px, py) ==>
                    #[trigger] self.pixel_at(px, py) == if x <= px < x_end && y <= py < yy {
                        pixel_bytes(color.0, self.bytes_per_pixel as int)
                    } else {
                        fb0.pixel_in(orig, px, py)
                    },
            decreases y_end - yy,
        {
            let mut xx = x;
            while xx < x_end
                invariant
                    self.wf(),
                    self.address == fb0.address, self.width == fb0.width, self.height == fb0.height,
                    self.pitch == fb0.pitch, self.bytes_per_pixel == fb0.bytes_per_pixel,
                    fb0.wf(), fb0.bytes@ == orig,
                    x_end <= self.width, y_end <= self.height, y <= yy < y_end, x <= xx,
                    x_end == if x + width < fb0.width { x + width } else { fb0.width as int },
                    y_end == if y + height < fb0.height { y + height } else { fb0.height as int },
                    x < x_end ==> xx <= x_end,
                    x >= x_end ==> xx == x,
                    !self.drawable() ==> self.bytes@ == orig,
                    self.bytes@.len() == orig.len(),
                    forall|k: int| 0 <= k < orig.len() && !fb0.in_rect_pixel(x as int, y as int, width as int, height as int, k)
                        ==> #[trigger] self.bytes@[k] == orig[k],
                    self.drawable() ==> forall|px: int, py: int| self.on_screen(px, py) ==>
                        #[trigger] self.pixel_at(px, py) == if (x <= px < x_end && y <= py < yy) || (x <= px < xx && py == yy) {
                            pixel_bytes(color.0, self.bytes_per_pixel as int)
                        } else {
                            fb0.pixel_in(orig, px, py)
                        },
                decreases x_end - xx,
            {
                let ghost before = *self;
                self.pixel(xx, yy, color);
                proof {
                    assert forall|k: int| 0 <= k < orig.len() && !fb0.in_rect_pixel(x as int, y as int, width as int, height as int, k)
                        implies #[trigger] self.bytes@[k] == orig[k] by {
                        if before.on_screen(xx as int, yy as int) && before.drawable() {
                            if before.offset(xx as int, yy as int) <= k < before.offset(xx as int, yy as int) + pixel_len(before.bytes_per_pixel as int) {
                                assert(fb0.offset(xx as int, yy as int) == before.offset(xx as int, yy as int));
                                assert(fb0.on_screen(xx as int, yy as int) && x <= xx < x + width && y <= yy < y + height);
                                assert(fb0.in_rect_pixel(x as int, y as int, width as int, height as int, k));
                            }
                        }
                    }
                    if self.drawable() {
                        assert forall|px: int, py: int| self.on_screen(px, py) && !(px == xx && py == yy) implies
                            #[trigger] self.pixel_at(px, py) == before.pixel_at(px, py) by {
                            lemma_pixels_disjoint(self.width as int, self.height as int, self.pitch as int,
                                self.bytes_per_pixel as int, px, py, xx as int, yy as int);
                            lemma_pixel_fits(self.width as int, self.height as int, self.pitch as int, self.bytes_per_pixel as int, px, py);
                            assert(self.pixel_at(px, py) =~= before.pixel_at(px, py));
                        }
                    }
                }
                xx += 1;
            }
            yy += 1;
        }
    }

    /// Fills the whole screen.
    pub fn clear(&mut self, color: Color)
        requires old(self).wf(),
        ensures
            final(self).wf(),
            final(self).address == old(self).address,
            final(self).width == old(self).width,
            final(self).height == old(self).height,
            final(self).pitch == old(self).pitch,
            final(self).bytes_per_pixel == old(self).bytes_per_pixel,
            !old(self).drawable() ==> final(self).bytes@ == old(self).bytes@,
            old(self).drawable() ==> forall|px: int, py: int| old(self).on_screen(px, py) ==>
                #[trigger] final(self).pixel_at(px, py) == pixel_bytes(color.0, old(self).bytes_per_pixel as int),
    {
        let w = self.width;
        let h = self.height;
        self.rect(0, 0, w, h, color);
    }

    /// Moves the picture up by `rows` pixel rows and fills the rows that come
    /// free; scrolling by nothing or by the whole height clears the screen.
    pub fn scroll_up(&mut self, rows: usize, fill: Color)
        requires old(self).wf(),
        ensures
            final(self).wf(),
            final(self).width == old(self).width,
            final(self).height == old(self).height,
            final(self).pitch == old(self).pitch,
            final(self).bytes_per_pixel == old(self).bytes_per_pixel,
            old(self).drawable() ==> forall|px: int, py: int| old(self).on_screen(px, py) ==>
                #[trigger] final(self).pixel_at(px, py) == if rows == 0 || rows >= old(self).height || py >= old(self).height - rows {
                    pixel_bytes(fill.0, old(self).bytes_per_pixel as int)
                } else {
                    old(self).pixel_at(px, py + rows)
                },
    {
        if rows == 0 || rows >= self.height {
            self.clear(fill);
            return;
        }
        let copy_rows = self.height - rows;
        let ghost orig = self.bytes@;
        let ghost fb0 = *self;
        let _len = self.bytes.len();
        proof { lemma_rows_fit(self.pitch as int, copy_rows as int, rows as int, self.height as int); }
        let shift: usize = mul_usize(rows, self.pitch);
        let total: usize = mul_usize(copy_rows, self.pitch);
        let mut k: usize = 0;
        while k < total
            invariant
                self.wf(), fb0.wf(), fb0.bytes@ == orig,
                self.width == fb0.width, self.height == fb0.height, self.pitch == fb0.pitch,
                self.bytes_per_pixel == fb0.bytes_per_pixel, self.address == fb0.address,
                shift == rows * self.pitch, total == copy_rows * self.pitch,
                total + shift == self.bytes@.len(),
                total + shift <= usize::MAX,
                k <= total,
                forall|i: int| 0 <= i < k ==> self.bytes@[i] == orig[i + shift],
                forall|i: int| k <= i < self.bytes@.len() ==> self.bytes@[i] == orig[i],
            decreases total - k,
        {
            let b = self.bytes[k + shift];
            self.bytes[k] = b;
            k += 1;
        }
        let ghost copied = *self;
        let w = self.width;
        self.rect(0, copy_rows, w, rows, fill);
        proof {
            if self.drawable() {
                assert forall|px: int, py: int| fb0.on_screen(px, py) && py < copy_rows implies
                    #[trigger] copied.pixel_at(px, py) == fb0.pixel_at(px, py + rows) by {
                    lemma_pixel_fits(fb0.width as int, fb0.height as int, fb0.pitch as int, fb0.bytes_per_pixel as int, px, py);
                    lemma_shifted_pixel(fb0.pitch as int, fb0.bytes_per_pixel as int, px, py, rows as int, copy_rows as int);
                    assert(copied.pixel_at(px, py) =~= fb0.pixel_at(px, py + rows));
                }
            }
        }
    }

    /// The physical-or-virtual address of the pixel memory.
    pub fn address(&self) -> (r: u64)
        ensures r == self.address,
    {
        self.address
    }

    /// Bytes of pixel memory.
    pub fn byte_len(&self) -> (r: u64)
        requires self.wf(),
        ensures r == self.pitch * self.height,
    {
        self.bytes.len() as u64
    }

    /// Pixels per row.
    pub fn width(&self) -> (r: usize)
        ensures r == self.width,
    {
        self.width
    }

    /// Rows of pixels.
    pub fn height(&self) -> (r: usize)
        ensures r == self.height,
    {
        self.height
    }
}

/// The product of two sizes that fits.
pub fn mul_usize(a: usize, b: usize) -> (r: usize)
    requires a * b <= usize::MAX,
    ensures r == a * b,
{
    a * b
}

/// An on-screen pixel lies within the pixel memory.
pub proof fn lemma_pixel_fits(width: int, height: int, pitch: int, bpp: int, x: int, y: int)
    requires
        width * bpp <= pitch, bpp >= 3, 0 <= x < width, 0 <= y < height,
    ensures
        y * pitch + x * bpp + pixel_len(bpp) <= pitch * height,
        y * pitch <= pitch * height,
        0 <= y * pitch,
        0 <= x * bpp,
        x * bpp + pixel_len(bpp) <= pitch,
{
    assert(x * bpp + bpp <= width * bpp) by (nonlinear_arith) requires x < width, bpp >= 0;
    assert(y * pitch + pitch <= pitch * height) by (nonlinear_arith) requires y < height, pitch >= 0;
    assert(0 <= y * pitch) by (nonlinear_arith) requires y >= 0, pitch >= 0;
    assert(0 <= x * bpp) by (nonlinear_arith) requires x >= 0, bpp >= 0;
}

/// Two different on-screen pixels occupy disjoint bytes.
pub proof fn lemma_pixels_disjoint(width: int, height: int, pitch: int, bpp: int, x1: int, y1: int, x2: int, y2: int)
    requires
        width * bpp <= pitch, bpp >= 3,
        0 <= x1 < width, 0 <= y1 < height, 0 <= x2 < width, 0 <= y2 < height,
        !(x1 == x2 && y1 == y2),
    ensures
        y1 * pitch + x1 * bpp + pixel_len(bpp) <= y2 * pitch + x2 * bpp
        || y2 * pitch + x2 * bpp + pixel_len(bpp) <= y1 * pitch + x1 * bpp,
{
    lemma_pixel_fits(width, height, pitch, bpp, x1, y1);
    lemma_pixel_fits(width, height, pitch, bpp, x2, y2);
    if y1 == y2 {
        if x1 < x2 {
            assert(x1 * bpp + bpp <= x2 * bpp) by (nonlinear_arith) requires x1 < x2, bpp >= 0;
        } else {
            assert(x2 * bpp + bpp <= x1 * bpp) by (nonlinear_arith) requires x2 < x1, bpp >= 0;
        }
    } else if y1 < y2 {
        assert(y1 * pitch + pitch <= y2 * pitch) by (nonlinear_arith) requires y1 < y2, pitch >= 0;
    } else {
        assert(y2 * pitch + pitch <= y1 * pitch) by (nonlinear_arith) requires y2 < y1, pitch >= 0;
    }
}

/// The rows kept by a scroll and the rows scrolled away fill the memory.
proof fn lemma_rows_fit(pitch: int, copy_rows: int, rows: int, height: int)
    requires copy_rows + rows == height, copy_rows >= 0, rows >= 0, pitch >= 0,
    ensures
        copy_rows * pitch + rows * pitch == pitch * height,
        0 <= copy_rows * pitch,
        0 <= rows * pitch,
{
    assert(copy_rows * pitch + rows * pitch == pitch * height) by (nonlinear_arith)
        requires copy_rows + rows == height;
    assert(0 <= copy_rows * pitch) by (nonlinear_arith) requires copy_rows >= 0, pitch >= 0;
    assert(0 <= rows * pitch) by (nonlinear_arith) requires rows >= 0, pitch >= 0;
}

/// A pixel `rows` rows further down sits `rows * pitch` bytes later, and a
/// kept pixel lies within the kept rows.
proof fn lemma_shifted_pixel(pitch: int, bpp: int, x: int, y: int, rows: int, copy_rows: int)
    requires 0 <= y < copy_rows, x * bpp + pixel_len(bpp) <= pitch, 0 <= x * bpp, pitch >= 0, rows >= 0,
    ensures
        (y + rows) * pitch + x * bpp == y * pitch + x * bpp + rows * pitch,
        y * pitch + x * bpp + pixel_len(bpp) <= copy_rows * pitch,
{
    assert((y + rows) * pitch == y * pitch + rows * pitch) by (nonlinear_arith);
    assert(y * pitch + pitch <= copy_rows * pitch) by (nonlinear_arith) requires y < copy_rows, pitch >= 0;
}

} // verus!
