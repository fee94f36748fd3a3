//! PS/2 mouse packet decoding into a pointer position clamped to the screen.
use vstd::prelude::*;

verus! {

/// Largest pointer column.
pub const MAX_X: i16 = 1279;
/// Largest pointer row.
pub const MAX_Y: i16 = 719;

/// Pointer state assembled from three-byte packets.
pub struct MouseState {
    pub x: i16,
    pub y: i16,
    pub buttons: u8,
    pub packet: [u8; 3],
    pub index: usize,
    pub sequence: u8,
}

/// `v` limited to `lo..=hi`.
pub open spec fn clamp(v: int, lo: int, hi: int) -> int {
    if v < lo { lo } else if v > hi { hi } else { v }
}

/// A movement byte with its sign bit (from the flags byte) applied.
pub open spec fn delta(raw: u8, negative: bool) -> int {
    if negative { raw - 256 } else { raw as int }
}

/// The word the pointer syscall returns: x, y, buttons and the packet count.
pub open spec fn spec_packed(x: int, y: int, buttons: int, sequence: int) -> int {
    x + 65536 * y + 4294967296 * buttons + 1099511627776 * sequence
}

impl MouseState {
    /// The state's invariant: the pointer is on screen.
    pub open spec fn wf(&self) -> bool {
        &&& 0 <= self.x <= MAX_X
        &&& 0 <= self.y <= MAX_Y
        &&& self.index < 3
    }

    /// The pointer near the middle of the screen, no button held.
    pub fn new() -> (r: Self)
        ensures
            r.wf(),
            r.x == 320 && r.y == 220 && r.buttons == 0 && r.index == 0 && r.sequence == 0,
    {
        MouseState { x: 320, y: 220, buttons: 0, packet: [0; 3], index: 0, sequence: 0 }
    }

    /// Takes one byte from the controller. A packet starts with a byte that
    /// has bit 3 set (others are dropped while waiting for one); on the third
    /// byte the pointer moves (y grows downwards on screen), the buttons are
    /// updated and the sequence number advances.
    pub fn push(&mut self, byte: u8)
        requires old(self).wf(),
        ensures
            final(self).wf(),
            old(self).index == 0 && byte & 8 == 0 ==> *final(self) == *old(self),
            !(old(self).index == 0 && byte & 8 == 0) && old(self).index < 2 ==> {
                &&& final(self).packet@ == old(self).packet@.update(old(self).index as int, byte)
                &&& final(self).index == old(self).index + 1
                &&& final(self).x == old(self).x && final(self).y == old(self).y
                &&& final(self).buttons == old(self).buttons && final(self).sequence == old(self).sequence
            },
            old(self).index == 2 ==> {
                let flags = old(self).packet[0];
                &&& final(self).index == 0
                &&& final(self).packet@ == old(self).packet@.update(2, byte)
                &&& final(self).x == clamp(old(self).x + delta(old(self).packet[1], flags & 0x10 != 0), 0, MAX_X as int)
                &&& final(self).y == clamp(old(self).y - delta(byte, flags & 0x20 != 0), 0, MAX_Y as int)
                &&& final(self).buttons == flags & 7
                &&& final(self).sequence == (if old(self).sequence == 255 { 0 } else { old(self).sequence + 1 })
            },
    {
        if self.index == 0 && byte & 8 == 0 {
            return;
        }
        let i = self.index;
        self.packet[i] = byte;
        self.index = i + 1;
        if self.index < 3 {
            return;
        }
        self.index = 0;
        let flags = self.packet[0];
        let mut dx: i16 = self.packet[1] as i16;
        let mut dy: i16 = self.packet[2] as i16;
        if flags & 0x10 != 0 {
            dx = dx - 256;
        }
        if flags & 0x20 != 0 {
            dy = dy - 256;
        }
        let nx = self.x + dx;
        let ny = self.y - dy;
        self.x = if nx < 0 { 0 } else if nx > MAX_X { MAX_X } else { nx };
        self.y = if ny < 0 { 0 } else if ny > MAX_Y { MAX_Y } else { ny };
        self.buttons = flags & 7;
        self.sequence = if self.sequence == 255 { 0 } else { self.sequence + 1 };
    }

    /// The state packed for the pointer syscall.
    pub fn packed(&self) -> (r: u64)
        requires self.wf(),
        ensures r == spec_packed(self.x as int, self.y as int, self.buttons as int, self.sequence as int),
    {
        self.x as u64 + (self.y as u64) * 65536 + (self.buttons as u64) * 4294967296
            + (self.sequence as u64) * 1099511627776
    }
}

} // verus!
