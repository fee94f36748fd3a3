//! The boot desktop: a background, a top panel and two sample windows.
use vstd::prelude::*;
use crate::framebuffer::{Color, Framebuffer, pixel_bytes};

verus! {

/// The boot desktop.
pub struct Desktop;

/// Background colour.
pub const DESKTOP_BG: u32 = 0x0019_1d24;

/// The rectangles of the desktop, in drawing order: (x, y, width, height, colour).
pub open spec fn desktop_rects() -> Seq<(usize, usize, usize, usize, u32)> {
    seq![
        (0usize, 0usize, 1280usize, 36usize, 0x0028_2f3au32),
        (18, 10, 16, 16, 0x0000_b894),
        (46, 14, 160, 8, 0x00aa_b2bd),
        (120, 105, 460, 280, 0x000d_1117),
        (112, 96, 460, 280, 0x00e8_edf2),
        (112, 96, 460, 34, 0x003b_4252),
        (128, 108, 10, 10, 0x00ff_605c),
        (146, 108, 10, 10, 0x00ff_bd44),
        (164, 108, 10, 10, 0x0000_ca4e),
        (142, 164, 300, 10, 0x0060_6a78),
        (142, 190, 238, 10, 0x0088_909c),
        (142, 232, 360, 76, 0x00d0_d7de),
        (650, 120, 280, 170, 0x000d_1117),
        (642, 112, 280, 170, 0x0034_3d4a),
        (666, 140, 108, 12, 0x0000_b894),
        (666, 170, 198, 8, 0x00b8_c0cc),
        (666, 194, 166, 8, 0x0088_909c)
    ]
}

/// Whether rectangle `r` covers pixel (`px`, `py`).
pub open spec fn covers(r: (usize, usize, usize, usize, u32), px: int, py: int) -> bool {
    r.0 <= px < r.0 + r.2 && r.1 <= py < r.1 + r.3
}

/// The colour of (`px`, `py`) after the first `n` rectangles are drawn over
/// the background: the last rectangle covering it, else the background.
pub open spec fn desktop_color(rects: Seq<(usize, usize, usize, usize, u32)>, n: int, px: int, py: int) -> u32
    decreases n,
{
    if n <= 0 {
        DESKTOP_BG
    } else if covers(rects[n - 1], px, py) {
        rects[n - 1].4
    } else {
        desktop_color(rects, n - 1, px, py)
    }
}

/// The rectangles of the desktop, in drawing order.
fn rect_table() -> (r: Vec<(usize, usize, usize, usize, u32)>)
    ensures r@ == desktop_rects(),
{
    let r = vec![
        (0usize, 0usize, 1280usize, 36usize, 0x0028_2f3au32),
        (18, 10, 16, 16, 0x0000_b894),
        (46, 14, 160, 8, 0x00aa_b2bd),
        (120, 105, 460, 280, 0x000d_1117),
        (112, 96, 460, 280, 0x00e8_edf2),
        (112, 96, 460, 34, 0x003b_4252),
        (128, 108, 10, 10, 0x00ff_605c),
        (146, 108, 10, 10, 0x00ff_bd44),
        (164, 108, 10, 10, 0x0000_ca4e),
        (142, 164, 300, 10, 0x0060_6a78),
        (142, 190, 238, 10, 0x0088_909c),
        (142, 232, 360, 76, 0x00d0_d7de),
        (650, 120, 280, 170, 0x000d_1117),
        (642, 112, 280, 170, 0x0034_3d4a),
        (666, 140, 108, 12, 0x0000_b894),
        (666, 170, 198, 8, 0x00b8_c0cc),
        (666, 194, 166, 8, 0x0088_909c)
    ];
    proof { assert(r@ =~= desktop_rects()); }
    r
}

impl Desktop {
    /// The desktop.
    pub fn new() -> (r: Desktop)
    {
        Desktop
    }

    /// Paints the desktop: each on-screen pixel gets the colour of the last
    /// desktop rectangle covering it, or the background.
    pub fn draw(&self, fb: &mut Framebuffer)
        requires old(fb).wf(),
        ensures
            final(fb).wf(),
            final(fb).width == old(fb).width,
            final(fb).height == old(fb).height,
            final(fb).pitch == old(fb).pitch,
            final(fb).bytes_per_pixel == old(fb).bytes_per_pixel,
            !old(fb).drawable() ==> final(fb).bytes@ == old(fb).bytes@,
            old(fb).drawable() ==> forall|px: int, py: int| old(fb).on_screen(px, py) ==>
                #[trigger] final(fb).pixel_at(px, py)
                    == pixel_bytes(desktop_color(desktop_rects(), desktop_rects().len() as int, px, py), old(fb).bytes_per_pixel as int),
    {
        fb.clear(Color(DESKTOP_BG));
        let rects = rect_table();
        let ghost fb0 = *fb;
        let mut i: usize = 0;
        while i < rects.len()
            invariant
                fb.wf(),
                fb.width == fb0.width, fb.height == fb0.height, fb.pitch == fb0.pitch,
                fb.bytes_per_pixel == fb0.bytes_per_pixel,
                rects@ == desktop_rects(),
                i <= rects@.len(),
                !fb.drawable() ==> fb.bytes@ == fb0.bytes@,
                fb.drawable() ==> forall|px: int, py: int| fb.on_screen(px, py) ==>
                    #[trigger] fb.pixel_at(px, py)
                        == pixel_bytes(desktop_color(desktop_rects(), i as int, px, py), fb.bytes_per_pixel as int),
            decreases rects@.len() - i,
        {
            let (x, y, w, h, c) = rects[i];
            proof { assert(x + w <= 2000 && y + h <= 2000); }
            fb.rect(x, y, w, h, Color(c));
            i += 1;
        }
    }
}

} // verus!
