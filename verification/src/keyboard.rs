//! PS/2 set-1 scancode decoding (German layout) and the keyboard input queue.
use vstd::prelude::*;
use crate::ring::ByteRing;

verus! {

/// Cells of the keyboard queue; it holds one byte less than this.
pub const BUFFER_LEN: usize = 256;

/// `byte` upper-cased when shift is held; `byte` is a lower-case letter.
pub open spec fn spec_letter(byte: u8, shift: bool) -> u8 {
    if shift { (byte - 32) as u8 } else { byte }
}

/// A lower-case letter with shift applied.
pub fn letter(byte: u8, shift: bool) -> (r: u8)
    requires 32 <= byte,
    ensures r == spec_letter(byte, shift),
{
    if shift { byte - 32 } else { byte }
}

/// The byte a make code produces, or 0 for a key without one.
pub open spec fn scancode_byte(scancode: u8, shift: bool) -> u8 {
    if scancode == 0x02 { if shift { 33 } else { 49 } }            // ! 1
    else if scancode == 0x03 { if shift { 34 } else { 50 } }       // " 2
    else if scancode == 0x04 { if shift { 0 } else { 51 } }        //   3
    else if scancode == 0x05 { if shift { 36 } else { 52 } }       // $ 4
    else if scancode == 0x06 { if shift { 37 } else { 53 } }       // % 5
    else if scancode == 0x07 { if shift { 38 } else { 54 } }       // & 6
    else if scancode == 0x08 { if shift { 47 } else { 55 } }       // / 7
    else if scancode == 0x09 { if shift { 40 } else { 56 } }       // ( 8
    else if scancode == 0x0a { if shift { 41 } else { 57 } }       // ) 9
    else if scancode == 0x0b { if shift { 61 } else { 48 } }       // = 0
    else if scancode == 0x0c { if shift { 63 } else { 45 } }       // ? -
    else if scancode == 0x0d { if shift { 96 } else { 39 } }       // ` '
    else if scancode == 0x0e { 8 }
    else if scancode == 0x1c { 10 }
    else if scancode == 0x39 { 32 }
    else if scancode == 0x10 { spec_letter(113, shift) }           // q
    else if scancode == 0x11 { spec_letter(119, shift) }           // w
    else if scancode == 0x12 { spec_letter(101, shift) }           // e
    else if scancode == 0x13 { spec_letter(114, shift) }           // r
    else if scancode == 0x14 { spec_letter(116, shift) }           // t
    else if scancode == 0x15 { spec_letter(122, shift) }           // z
    else if scancode == 0x16 { spec_letter(117, shift) }           // u
    else if scancode == 0x17 { spec_letter(105, shift) }           // i
    else if scancode == 0x18 { spec_letter(111, shift) }           // o
    else if scancode == 0x19 { spec_letter(112, shift) }           // p
    else if scancode == 0x1b { if shift { 42 } else { 43 } }       // * +
    else if scancode == 0x1e { spec_letter(97, shift) }            // a
    else if scancode == 0x1f { spec_letter(115, shift) }           // s
    else if scancode == 0x20 { spec_letter(100, shift) }           // d
    else if scancode == 0x21 { spec_letter(102, shift) }           // f
    else if scancode == 0x22 { spec_letter(103, shift) }           // g
    else if scancode == 0x23 { spec_letter(104, shift) }           // h
    else if scancode == 0x24 { spec_letter(106, shift) }           // j
    else if scancode == 0x25 { spec_letter(107, shift) }           // k
    else if scancode == 0x26 { spec_letter(108, shift) }           // l
    else if scancode == 0x29 { if shift { 62 } else { 94 } }       // > ^
    else if scancode == 0x2b { if shift { 39 } else { 35 } }       // ' #
    else if scancode == 0x2c { spec_letter(121, shift) }           // y
    else if scancode == 0x2d { spec_letter(120, shift) }           // x
    else if scancode == 0x2e { spec_letter(99, shift) }            // c
    else if scancode == 0x2f { spec_letter(118, shift) }           // v
    else if scancode == 0x30 { spec_letter(98, shift) }            // b
    else if scancode == 0x31 { spec_letter(110, shift) }           // n
    else if scancode == 0x32 { spec_letter(109, shift) }           // m
    else if scancode == 0x33 { if shift { 59 } else { 44 } }       // ; ,
    else if scancode == 0x34 { if shift { 58 } else { 46 } }       // : .
    else if scancode == 0x35 { if shift { 63 } else { 47 } }       // ? /
    else { 0 }
}

/// The byte a make code produces, if any.
pub open spec fn spec_decode(scancode: u8, shift: bool) -> Option<u8> {
    let b = scancode_byte(scancode, shift);
    if b == 0 { None } else { Some(b) }
}

/// The letter keys of the German (QWERTZ) layout, row by row: the top row
/// `qwertzuiop` from make code 0x10, the home row `asdfghjkl` from 0x1e
/// and the bottom row `yxcvbnm` from 0x2c.
pub open spec fn layout_letter(scancode: u8) -> Option<u8> {
    let top: Seq<u8> = seq![113u8, 119, 101, 114, 116, 122, 117, 105, 111, 112];
    let home: Seq<u8> = seq![97u8, 115, 100, 102, 103, 104, 106, 107, 108];
    let bottom: Seq<u8> = seq![121u8, 120, 99, 118, 98, 110, 109];
    if 0x10 <= scancode < 0x10 + top.len() { Some(top[scancode - 0x10]) }
    else if 0x1e <= scancode < 0x1e + home.len() { Some(home[scancode - 0x1e]) }
    else if 0x2c <= scancode < 0x2c + bottom.len() { Some(bottom[scancode - 0x2c]) }
    else { None }
}

/// Each letter key types its layout letter, upper-cased with shift, and a
/// lower-case letter comes from no other key: `decode(sc, false)` is the
/// letter `l` exactly when `sc` is `l`'s key in the layout.
pub proof fn lemma_letter_keys(scancode: u8, l: u8)
    requires 97 <= l <= 122,
    ensures
        layout_letter(scancode) matches Some(k) ==> spec_decode(scancode, false) == Some(k)
            && spec_decode(scancode, true) == Some((k - 32) as u8),
        spec_decode(scancode, false) == Some(l) <==> layout_letter(scancode) == Some(l),
{
    let top: Seq<u8> = seq![113u8, 119, 101, 114, 116, 122, 117, 105, 111, 112];
    let home: Seq<u8> = seq![97u8, 115, 100, 102, 103, 104, 106, 107, 108];
    let bottom: Seq<u8> = seq![121u8, 120, 99, 118, 98, 110, 109];
    assert(top[0] == 113 && top[1] == 119 && top[2] == 101 && top[3] == 114 && top[4] == 116
        && top[5] == 122 && top[6] == 117 && top[7] == 105 && top[8] == 111 && top[9] == 112);
    assert(home[0] == 97 && home[1] == 115 && home[2] == 100 && home[3] == 102 && home[4] == 103
        && home[5] == 104 && home[6] == 106 && home[7] == 107 && home[8] == 108);
    assert(bottom[0] == 121 && bottom[1] == 120 && bottom[2] == 99 && bottom[3] == 118 && bottom[4] == 98
        && bottom[5] == 110 && bottom[6] == 109);
}

/// The number row types its digits `1` to `9` and then `0` (make codes
/// 0x02 to 0x0b) without shift, and no other key types a digit; Enter,
/// backspace and the space bar type newline, backspace and space with or
/// without shift.
pub proof fn lemma_number_row_and_controls(scancode: u8, shift: bool)
    ensures
        0x02 <= scancode <= 0x0a ==> spec_decode(scancode, false) == Some((scancode + 47) as u8),
        scancode == 0x0b ==> spec_decode(scancode, false) == Some(48u8),
        (spec_decode(scancode, false) matches Some(b) && 48 <= b <= 57) ==> 0x02 <= scancode <= 0x0b,
        scancode == 0x1c ==> spec_decode(scancode, shift) == Some(10u8),
        scancode == 0x0e ==> spec_decode(scancode, shift) == Some(8u8),
        scancode == 0x39 ==> spec_decode(scancode, shift) == Some(32u8),
{
}

/// Translates a make code to the byte it types, honouring shift.
pub fn decode(scancode: u8, shift: bool) -> (r: Option<u8>)
    ensures r == spec_decode(scancode, shift),
{
    let byte: u8 = match scancode {
        0x02 => if shift { 33u8 } else { 49u8 },
        0x03 => if shift { 34u8 } else { 50u8 },
        0x04 => if shift { 0 } else { 51u8 },
        0x05 => if shift { 36u8 } else { 52u8 },
        0x06 => if shift { 37u8 } else { 53u8 },
        0x07 => if shift { 38u8 } else { 54u8 },
        0x08 => if shift { 47u8 } else { 55u8 },
        0x09 => if shift { 40u8 } else { 56u8 },
        0x0a => if shift { 41u8 } else { 57u8 },
        0x0b => if shift { 61u8 } else { 48u8 },
        0x0c => if shift { 63u8 } else { 45u8 },
        0x0d => if shift { 96u8 } else { 39u8 },
        0x0e => 8,
        0x1c => 10u8,
        0x39 => 32u8,
        0x10 => letter(113u8, shift),
        0x11 => letter(119u8, shift),
        0x12 => letter(101u8, shift),
        0x13 => letter(114u8, shift),
        0x14 => letter(116u8, shift),
        0x15 => letter(122u8, shift),
        0x16 => letter(117u8, shift),
        0x17 => letter(105u8, shift),
        0x18 => letter(111u8, shift),
        0x19 => letter(112u8, shift),
        0x1a => 0,
        0x1b => if shift { 42u8 } else { 43u8 },
        0x1e => letter(97u8, shift),
        0x1f => letter(115u8, shift),
        0x20 => letter(100u8, shift),
        0x21 => letter(102u8, shift),
        0x22 => letter(103u8, shift),
        0x23 => letter(104u8, shift),
        0x24 => letter(106u8, shift),
        0x25 => letter(107u8, shift),
        0x26 => letter(108u8, shift),
        0x27 => 0,
        0x28 => 0,
        0x29 => if shift { 62u8 } else { 94u8 },
        0x2b => if shift { 39u8 } else { 35u8 },
        0x2c => letter(121u8, shift),
        0x2d => letter(120u8, shift),
        0x2e => letter(99u8, shift),
        0x2f => letter(118u8, shift),
        0x30 => letter(98u8, shift),
        0x31 => letter(110u8, shift),
        0x32 => letter(109u8, shift),
        0x33 => if shift { 59u8 } else { 44u8 },
        0x34 => if shift { 58u8 } else { 46u8 },
        0x35 => if shift { 63u8 } else { 47u8 },
        _ => return None,
    };
    if byte == 0 { None } else { Some(byte) }
}

/// An ASCII letter.
pub open spec fn is_alpha(b: u8) -> bool {
    (65 <= b <= 90) || (97 <= b <= 122)
}

/// The control character typed by Ctrl and the letter `b`.
pub open spec fn spec_control(b: u8) -> u8 {
    let lower = if 65 <= b <= 90 { b + 32 } else { b as int };
    (lower % 32) as u8
}

/// The final byte of the escape sequence an extended key sends, if any
/// (0x53, Delete, sends DEL instead).
pub open spec fn extended_final(code: u8) -> Option<u8> {
    if code == 0x47 { Some(72u8) }        // Home  ESC [ H
    else if code == 0x48 { Some(65u8) }   // Up    ESC [ A
    else if code == 0x4b { Some(68u8) }   // Left  ESC [ D
    else if code == 0x4d { Some(67u8) }   // Right ESC [ C
    else if code == 0x4f { Some(70u8) }   // End   ESC [ F
    else if code == 0x50 { Some(66u8) }   // Down  ESC [ B
    else { None }
}

/// The bytes queued for an extended make code.
pub open spec fn extended_bytes(code: u8) -> Seq<u8> {
    match extended_final(code) {
        Some(f) => seq![27u8, 91u8, f],
        None => if code == 0x53 { seq![127u8] } else { Seq::empty() },
    }
}

/// `v` after queueing each byte of `s` into a ring of `cap` cells.
pub open spec fn queued(v: Seq<u8>, s: Seq<u8>, cap: nat) -> Seq<u8>
    decreases s.len(),
{
    if s.len() == 0 {
        v
    } else {
        let v1 = if v.len() + 1 >= cap { v } else { v.push(s[0]) };
        queued(v1, s.drop_first(), cap)
    }
}

/// The keyboard's queue and modifier state.
pub struct KeyboardBuffer {
    pub ring: ByteRing,
    pub shift: bool,
    pub ctrl: bool,
    pub extended: bool,
}

impl KeyboardBuffer {
    /// The buffer's invariant.
    pub open spec fn wf(&self) -> bool {
        self.ring.wf() && self.ring.cap() == BUFFER_LEN
    }

    /// The queued bytes, oldest first.
    pub open spec fn view(&self) -> Seq<u8> {
        self.ring@
    }

    /// An empty queue with no modifier held.
    pub fn new() -> (r: Self)
        ensures
            r.wf(),
            r@ == Seq::<u8>::empty(),
            !r.shift && !r.ctrl && !r.extended,
    {
        KeyboardBuffer { ring: ByteRing::new(BUFFER_LEN), shift: false, ctrl: false, extended: false }
    }

    /// Takes the oldest queued byte.
    pub fn pop(&mut self) -> (r: Option<u8>)
        requires old(self).wf(),
        ensures
            final(self).wf(),
            final(self).shift == old(self).shift && final(self).ctrl == old(self).ctrl
                && final(self).extended == old(self).extended,
            old(self)@.len() == 0 ==> r is None && final(self)@ == old(self)@,
            old(self)@.len() > 0 ==> r == Some(old(self)@[0]) && final(self)@ == old(self)@.drop_first(),
    {
        self.ring.pop()
    }

    /// Whether a byte is queued.
    pub fn has_key(&self) -> (r: bool)
        requires self.wf(),
        ensures r == (self@.len() > 0),
    {
        self.ring.has_data()
    }

    /// Queues `byte`; with 255 bytes queued it is dropped.
    pub fn push(&mut self, byte: u8)
        requires old(self).wf(),
        ensures
            final(self).wf(),
            final(self).shift == old(self).shift && final(self).ctrl == old(self).ctrl
                && final(self).extended == old(self).extended,
            final(self)@ == queued(old(self)@, seq![byte], BUFFER_LEN as nat),
    {
        self.ring.push(byte);
        proof { reveal_with_fuel(queued, 2); }
    }

    /// Queues `bytes` in order, dropping what does not fit.
    pub fn push_bytes(&mut self, bytes: &[u8])
        requires old(self).wf(),
        ensures
            final(self).wf(),
            final(self).shift == old(self).shift && final(self).ctrl == old(self).ctrl
                && final(self).extended == old(self).extended,
            final(self)@ == queued(old(self)@, bytes@, BUFFER_LEN as nat),
    {
        let mut i: usize = 0;
        proof { assert(bytes@.subrange(0, bytes@.len() as int) =~= bytes@); }
        while i < bytes.len()
            invariant
                self.wf(),
                0 <= i <= bytes@.len(),
                self.shift == old(self).shift && self.ctrl == old(self).ctrl && self.extended == old(self).extended,
                queued(old(self)@, bytes@, BUFFER_LEN as nat) == queued(self@, bytes@.subrange(i as int, bytes@.len() as int), BUFFER_LEN as nat),
            decreases bytes@.len() - i,
        {
            let ghost rest = bytes@.subrange(i as int, bytes@.len() as int);
            self.ring.push(bytes[i]);
            proof {
                assert(rest.drop_first() =~= bytes@.subrange(i + 1, bytes@.len() as int));
                assert(rest[0] == bytes@[i as int]);
            }
            i += 1;
        }
        proof {
            assert(bytes@.subrange(i as int, bytes@.len() as int) =~= Seq::<u8>::empty());
        }
    }

    /// Handles one scancode from the controller: tracks Shift and Ctrl, queues
    /// the escape sequence of an extended key, and returns the byte a plain
    /// key types (a control character while Ctrl is held on a letter).
    pub fn decode_scancode(&mut self, scancode: u8) -> (r: Option<u8>)
        requires old(self).wf(),
        ensures
            final(self).wf(),
            scancode == 0xe0 ==> r is None && *final(self) == (KeyboardBuffer { extended: true, ..*old(self) }),
            (scancode == 0x2a || scancode == 0x36) ==> r is None && *final(self) == (KeyboardBuffer { shift: true, ..*old(self) }),
            (scancode == 0xaa || scancode == 0xb6) ==> r is None && *final(self) == (KeyboardBuffer { shift: false, ..*old(self) }),
            scancode == 0x1d ==> r is None && *final(self) == (KeyboardBuffer { ctrl: true, ..*old(self) }),
            scancode == 0x9d ==> r is None && *final(self) == (KeyboardBuffer { ctrl: false, ..*old(self) }),
            scancode >= 0x80 && scancode != 0xe0 && scancode != 0xaa && scancode != 0xb6 && scancode != 0x9d
                ==> r is None && *final(self) == (KeyboardBuffer { extended: false, ..*old(self) }),
            scancode < 0x80 && scancode != 0x2a && scancode != 0x36 && scancode != 0x1d && old(self).extended ==> {
                &&& r is None
                &&& !final(self).extended
                &&& final(self).shift == old(self).shift && final(self).ctrl == old(self).ctrl
                &&& final(self)@ == queued(old(self)@, extended_bytes(scancode), BUFFER_LEN as nat)
            },
            scancode < 0x80 && scancode != 0x2a && scancode != 0x36 && scancode != 0x1d && !old(self).extended ==> {
                &&& *final(self) == *old(self)
                &&& r == match spec_decode(scancode, old(self).shift) {
                    Some(b) => Some(if old(self).ctrl && is_alpha(b) { spec_control(b) } else { b }),
                    None => None,
                }
            },
    {
        if scancode == 0xe0 {
            self.extended = true;
            return None;
        }
        if scancode == 0x2a || scancode == 0x36 {
            self.shift = true;
            return None;
        }
        if scancode == 0xaa || scancode == 0xb6 {
            self.shift = false;
            return None;
        }
        if scancode == 0x1d {
            self.ctrl = true;
            return None;
        }
        if scancode == 0x9d {
            self.ctrl = false;
            return None;
        }
        if scancode >= 0x80 {
            self.extended = false;
            return None;
        }
        if self.extended {
            self.extended = false;
            let fin: u8 = match scancode {
                0x47 => 72u8,
                0x48 => 65u8,
                0x4b => 68u8,
                0x4d => 67u8,
                0x4f => 70u8,
                0x50 => 66u8,
                _ => 0,
            };
            if fin != 0 {
                let seq_bytes: [u8; 3] = [0x1b, 91u8, fin];
                self.push_bytes(&seq_bytes);
                proof { assert(seq_bytes@ =~= extended_bytes(scancode)); }
            } else if scancode == 0x53 {
                self.push(127);
                proof { assert(seq![127u8] =~= extended_bytes(scancode)); }
            } else {
                proof { assert(extended_bytes(scancode) =~= Seq::<u8>::empty()); }
            }
            return None;
        }
        let byte = match decode(scancode, self.shift) {
            Some(b) => b,
            None => return None,
        };
        if self.ctrl && ((65u8 <= byte && byte <= 90u8) || (97u8 <= byte && byte <= 122u8)) {
            let lower = if byte <= 90u8 { byte + 32 } else { byte };
            Some(lower % 32)
        } else {
            Some(byte)
        }
    }
}

} // verus!
